//! Processes that are launched under the profiler.

use crate::dict::Dict;
use crate::error::InferlabError;
use crate::paths::{join_path, joined_path};
use crate::protocol::EndpointAssignment;
use crate::resolve::allocation::LaunchPlan;
use crate::resolve::hierarchy::{find_plan, plan_index};
use crate::resolve::realization::{
    CommandPlan, ProcessCapturePlan, ProcessIdentityPlan, ProcessPlan,
};
use crate::text::{cat2, cat3, cat4, copy_list, debug, debug_text, join, joined, texts};
use crate::workspace::NsysEscapes;
use vstd::prelude::*;
use vstd::string::*;

verus! {

/// How the collection of a target ends.
#[derive(Clone, Copy, Debug, PartialEq, Eq, Structural)]
pub enum ProfilerFinalization {
    NsysStop,
}

/// What opens and closes the windows of a capture.
#[derive(Clone, Copy, Debug, PartialEq, Eq, Structural)]
pub enum WindowControlKind {
    FrameworkRange,
}

/// Where a target runs.
#[derive(Debug)]
pub enum ProfilerLaunch {
    Local,
    Ssh { target: String },
}

/// How the windows of a target are opened and closed.
#[derive(Debug)]
pub enum ProfilerControl {
    Http {
        process_id: String,
        endpoint: EndpointAssignment,
        start_path: String,
        stop_path: String,
        /// The time that an action has for its response.
        deadline_seconds: u64,
    },
}

/// A process that was launched under the profiler.
#[derive(Debug)]
pub struct ProfilerTargetRecord {
    pub process_id: String,
    pub role_id: String,
    pub replica_id: String,
    pub replica_index: u32,
    pub rank: u32,
    pub session: String,
    pub executable: String,
    pub launch: ProfilerLaunch,
    pub finalization: ProfilerFinalization,
    pub control: ProfilerControl,
    pub supported_window_controls: Vec<WindowControlKind>,
    pub command_cwd: String,
    pub runtime_root: String,
    pub launch_prefix: Vec<String>,
    /// The merged extra inputs that the target was rendered from.
    pub escapes: NsysEscapes,
}

/// A process as it is launched, and its profiling where it has one.
#[derive(Debug)]
pub struct PreparedProcess {
    pub command: CommandPlan,
    pub target: Option<ProfilerTargetRecord>,
}

/// The time that an action has for its response where a record names none.
pub fn default_control_deadline() -> (r: u64)
    ensures
        r == 60,
{
    60
}

// ---------------------------------------------------------------------------
// Sessions

/// A character that a session name may hold.
pub open spec fn session_char(c: char) -> bool {
    ('0' <= c && c <= '9') || ('a' <= c && c <= 'z') || ('A' <= c && c <= 'Z') || c == '-' || c
        == '_'
}

/// The text with every other character replaced.
pub open spec fn sanitized(value: Seq<char>) -> Seq<char> {
    value.map_values(
        |c: char|
            if session_char(c) {
                c
            } else {
                '-'
            },
    )
}

/// The text with every character that a session name may not hold replaced.
pub fn sanitize_segment(value: &str) -> (r: String)
    ensures
        r@ == sanitized(value@),
{
    let mut out = String::new();
    let n: usize = value.unicode_len();
    let mut i: usize = 0;
    assert(out@ =~= sanitized(value@).take(0));
    while i < n
        invariant
            n == value@.len(),
            i <= n,
            out@ == sanitized(value@).take(i as int),
        decreases n - i,
    {
        let c = value.get_char(i);
        let kept = ('0' <= c && c <= '9') || ('a' <= c && c <= 'z') || ('A' <= c && c <= 'Z') || c
            == '-' || c == '_';
        out.push(
            if kept {
                c
            } else {
                '-'
            },
        );
        assert(out@ =~= sanitized(value@).take(i + 1));
        i += 1;
    }
    assert(sanitized(value@).take(i as int) =~= sanitized(value@));
    out
}

/// The name of the session of a process.
pub open spec fn session_text(record_id: Seq<char>, process_id: Seq<char>) -> Seq<char> {
    "inferlab-"@ + sanitized(record_id) + "-"@ + sanitized(process_id)
}

/// The name of the session of a process.
pub fn session_name(record_id: &str, process_id: &str) -> (r: String)
    ensures
        r@ == session_text(record_id@, process_id@),
{
    cat4(
        "inferlab-",
        sanitize_segment(record_id).as_str(),
        "-",
        sanitize_segment(process_id).as_str(),
    )
}

// ---------------------------------------------------------------------------
// Commands

/// The words that set variables for a command: none where there are none, and a
/// separator, so that no key is read as an option.
pub open spec fn env_prefix_words(entries: Seq<(String, String)>) -> Seq<Seq<char>> {
    if entries.len() == 0 {
        Seq::empty()
    } else {
        seq!["env"@, "--"@] + Seq::new(
            entries.len(),
            |i: int| entries[i].0@ + "="@ + entries[i].1@,
        )
    }
}

/// The words that set variables for a command.
pub fn env_prefix(env: &Dict<String>) -> (r: Vec<String>)
    ensures
        texts(r@) == env_prefix_words(env.entries@),
{
    let mut argv: Vec<String> = Vec::new();
    if env.entries.len() == 0 {
        assert(texts(argv@) =~= env_prefix_words(env.entries@));
        return argv;
    }
    argv.push("env".to_owned());
    argv.push("--".to_owned());
    let ghost head = seq!["env"@, "--"@];
    let ghost set = Seq::new(
        env.entries@.len(),
        |i: int| env.entries@[i].0@ + "="@ + env.entries@[i].1@,
    );
    assert(texts(argv@) =~= head + set.take(0));
    let mut i: usize = 0;
    while i < env.entries.len()
        invariant
            i <= env.entries@.len(),
            set == Seq::new(
                env.entries@.len(),
                |i: int| env.entries@[i].0@ + "="@ + env.entries@[i].1@,
            ),
            texts(argv@) == head + set.take(i as int),
        decreases env.entries@.len() - i,
    {
        let word = cat3(env.entries[i].0.as_str(), "=", env.entries[i].1.as_str());
        let ghost before = texts(argv@);
        argv.push(word);
        proof {
            assert(texts(argv@) =~= before.push(word@));
            assert(set.take(i + 1) =~= set.take(i as int).push(set[i as int]));
            assert(texts(argv@) =~= head + set.take(i + 1));
        }
        i += 1;
    }
    assert(set.take(i as int) =~= set);
    argv
}

/// The name of the profiler's program.
pub open spec fn program_of(escapes: NsysEscapes) -> Seq<char> {
    match escapes.executable {
        Some(name) => name@,
        None => "nsys"@,
    }
}

/// What is traced.
pub open spec fn trace_of(escapes: NsysEscapes) -> Seq<char> {
    if escapes.trace@.len() == 0 {
        "cuda,nvtx,osrt"@
    } else {
        joined(texts(escapes.trace@), ","@)
    }
}

/// The words that launch a process under the profiler. Extra options stand ahead
/// of the managed ones, so that the managed ones win.
pub open spec fn launch_words(escapes: NsysEscapes, session: Seq<char>) -> Seq<Seq<char>> {
    env_prefix_words(escapes.env.entries@) + seq![program_of(escapes), "launch"@] + texts(
        escapes.launch_options@,
    ) + seq!["--session-new"@, session, "--trace="@ + trace_of(escapes), "--wait=all"@]
}

fn push_all(argv: &mut Vec<String>, words: &[String])
    ensures
        texts(final(argv)@) == texts(old(argv)@) + texts(words@),
{
    let ghost before = argv@;
    let mut rest = copy_list(words);
    argv.append(&mut rest);
    assert(texts(argv@) =~= texts(before) + texts(words@));
}

fn push_word(argv: &mut Vec<String>, word: String)
    ensures
        texts(final(argv)@) == texts(old(argv)@).push(word@),
{
    let ghost before = argv@;
    argv.push(word);
    assert(texts(argv@) =~= texts(before).push(word@));
}

fn executable_of(escapes: &NsysEscapes) -> (r: String)
    ensures
        r@ == program_of(*escapes),
{
    match &escapes.executable {
        Some(name) => name.clone(),
        None => "nsys".to_owned(),
    }
}

fn launch_prefix_of(escapes: &NsysEscapes, session: &str) -> (r: Vec<String>)
    ensures
        texts(r@) == launch_words(*escapes, session@),
{
    let trace = if escapes.trace.len() == 0 {
        "cuda,nvtx,osrt".to_owned()
    } else {
        join(escapes.trace.as_slice(), ",")
    };
    let mut prefix = env_prefix(&escapes.env);
    push_word(&mut prefix, executable_of(escapes));
    push_word(&mut prefix, "launch".to_owned());
    push_all(&mut prefix, escapes.launch_options.as_slice());
    push_word(&mut prefix, "--session-new".to_owned());
    push_word(&mut prefix, session.to_owned());
    push_word(&mut prefix, cat2("--trace=", trace.as_str()));
    push_word(&mut prefix, "--wait=all".to_owned());
    assert(texts(prefix@) =~= launch_words(*escapes, session@));
    prefix
}

/// The same command with other words.
pub open spec fn command_with(command: CommandPlan, original: CommandPlan, argv: Seq<Seq<char>>) -> bool {
    &&& texts(command.argv@) == argv
    &&& command.env.entries@ == original.env.entries@
    &&& command.explicit_env@ == original.explicit_env@
    &&& command.pass_env@ == original.pass_env@
    &&& command.cwd@ == original.cwd@
}

fn command_from(original: &CommandPlan, argv: Vec<String>) -> (r: CommandPlan)
    ensures
        command_with(r, *original, texts(argv@)),
{
    CommandPlan {
        argv,
        env: original.env.copy(),
        explicit_env: copy_list(original.explicit_env.as_slice()),
        pass_env: copy_list(original.pass_env.as_slice()),
        cwd: original.cwd.clone(),
    }
}

// ---------------------------------------------------------------------------
// Preparation

/// Where a process of a replica stands.
pub struct ProcessPlace<'a> {
    pub record_id: &'a str,
    pub role_id: &'a str,
    pub replica_id: &'a str,
    pub replica_index: u32,
}

/// The rank of a process among those of its replica.
pub open spec fn rank_of_plan(identity: ProcessIdentityPlan) -> u32 {
    match identity {
        ProcessIdentityPlan::ModelRank { rank, .. } => rank,
        ProcessIdentityPlan::Frontend { .. } => 0,
    }
}

/// Where a target writes its reports.
pub open spec fn profiles_dir(cwd: Seq<char>, record_id: Seq<char>, process_id: Seq<char>) -> Seq<char> {
    joined_path(
        joined_path(joined_path(joined_path(cwd, "runtime"@), record_id), process_id),
        "profiles"@,
    )
}

/// Whether a launch is that of a plan.
pub open spec fn launch_is(launch: ProfilerLaunch, plan: LaunchPlan) -> bool {
    match plan {
        LaunchPlan::Local => launch is Local,
        LaunchPlan::Ssh { target } => launch matches ProfilerLaunch::Ssh { target: found }
            && found@ == target@,
    }
}

/// Whether a control is that of a capture, through the endpoint.
pub open spec fn control_is(
    control: ProfilerControl,
    capture: ProcessCapturePlan,
    endpoint: EndpointAssignment,
    deadline: u64,
) -> bool {
    control matches ProfilerControl::Http {
        process_id,
        endpoint: found,
        start_path,
        stop_path,
        deadline_seconds,
    } && process_id@ == capture.control_process_id@ && found.host@ == endpoint.host@ && found.port
        == endpoint.port && start_path@ == capture.start.path@ && stop_path@ == capture.stop.path@
        && deadline_seconds == deadline
}

/// Whether a target is that of a process under a capture.
pub open spec fn target_is(
    target: ProfilerTargetRecord,
    place: ProcessPlace,
    process: ProcessPlan,
    capture: ProcessCapturePlan,
    endpoint: EndpointAssignment,
    deadline: u64,
) -> bool {
    let session = session_text(place.record_id@, process.id@);
    &&& target.process_id@ == process.id@
    &&& target.role_id@ == place.role_id@
    &&& target.replica_id@ == place.replica_id@
    &&& target.replica_index == place.replica_index
    &&& target.rank == rank_of_plan(process.identity)
    &&& target.session@ == session
    &&& target.executable@ == program_of(*capture.escapes)
    &&& launch_is(target.launch, process.launch)
    &&& target.finalization == ProfilerFinalization::NsysStop
    &&& control_is(target.control, capture, endpoint, deadline)
    &&& target.supported_window_controls@ == seq![WindowControlKind::FrameworkRange]
    &&& target.command_cwd@ == process.command.cwd@
    &&& target.runtime_root@ == profiles_dir(process.command.cwd@, place.record_id@, process.id@)
    &&& texts(target.launch_prefix@) == launch_words(*capture.escapes, session)
    &&& target.escapes.same(*capture.escapes)
}

/// Whether a process is prepared as it is planned: as it is where it is not profiled,
/// and else under the profiler, controlled by the process that its capture names.
pub open spec fn prepared_as(
    r: Result<PreparedProcess, InferlabError>,
    place: ProcessPlace,
    process: ProcessPlan,
    processes: Seq<ProcessPlan>,
    control_deadline_seconds: u64,
) -> bool {
    match process.capture_target {
        None => r matches Ok(prepared) && prepared.target is None && command_with(
            prepared.command,
            process.command,
            texts(process.command.argv@),
        ),
        Some(capture) => match plan_index(processes, capture.control_process_id@) {
            None => r matches Err(InferlabError::Profiling { message }) && message@
                == "profiling target "@ + debug_text(process.id@)
                + " references unknown control process "@ + debug_text(
                capture.control_process_id@,
            ),
            Some(at) => r matches Ok(prepared) && command_with(
                prepared.command,
                process.command,
                launch_words(*capture.escapes, session_text(place.record_id@, process.id@))
                    + texts(process.command.argv@),
            ) && (prepared.target matches Some(target) && target_is(
                target,
                place,
                process,
                capture,
                processes[at].endpoint,
                control_deadline_seconds,
            )),
        },
    }
}

/// Prepares a process for its launch: as it is where it is not profiled, and under
/// the profiler where it is, with the serving command unchanged at the end.
pub fn prepare_process(
    place: &ProcessPlace,
    process: &ProcessPlan,
    processes: &[ProcessPlan],
    control_deadline_seconds: u64,
) -> (r: Result<PreparedProcess, InferlabError>)
    ensures
        prepared_as(r, *place, *process, processes@, control_deadline_seconds),
{
    let capture = match &process.capture_target {
        None => {
            let argv = copy_list(process.command.argv.as_slice());
            return Ok(
                PreparedProcess { command: command_from(&process.command, argv), target: None },
            );
        },
        Some(capture) => capture,
    };
    let session = session_name(place.record_id, process.id.as_str());
    let launch_prefix = launch_prefix_of(capture.escapes, session.as_str());
    let mut argv = copy_list(launch_prefix.as_slice());
    push_all(&mut argv, process.command.argv.as_slice());
    let control_process: &ProcessPlan = match find_plan(
        processes,
        capture.control_process_id.as_str(),
    ) {
        Some(at) => &processes[at],
        None => {
            return Err(
                InferlabError::Profiling {
                    message: cat4(
                        "profiling target ",
                        debug(process.id.as_str()).as_str(),
                        " references unknown control process ",
                        debug(capture.control_process_id.as_str()).as_str(),
                    ),
                },
            );
        },
    };
    let control = ProfilerControl::Http {
        process_id: capture.control_process_id.clone(),
        endpoint: control_process.endpoint.clone(),
        start_path: capture.start.path.clone(),
        stop_path: capture.stop.path.clone(),
        deadline_seconds: control_deadline_seconds,
    };
    let cwd = process.command.cwd.as_str();
    let runtime = join_path(cwd, "runtime");
    let of_record = join_path(runtime.as_str(), place.record_id);
    let of_process = join_path(of_record.as_str(), process.id.as_str());
    let controls = vec![WindowControlKind::FrameworkRange];
    assert(controls@ =~= seq![WindowControlKind::FrameworkRange]);
    let target = ProfilerTargetRecord {
        process_id: process.id.clone(),
        role_id: place.role_id.to_owned(),
        replica_id: place.replica_id.to_owned(),
        replica_index: place.replica_index,
        rank: match process.identity {
            ProcessIdentityPlan::ModelRank { rank, .. } => rank,
            ProcessIdentityPlan::Frontend { .. } => 0,
        },
        session,
        executable: executable_of(capture.escapes),
        launch: match &process.launch {
            LaunchPlan::Local => ProfilerLaunch::Local,
            LaunchPlan::Ssh { target } => ProfilerLaunch::Ssh { target: target.clone() },
        },
        finalization: ProfilerFinalization::NsysStop,
        control,
        supported_window_controls: controls,
        command_cwd: process.command.cwd.clone(),
        runtime_root: join_path(of_process.as_str(), "profiles"),
        launch_prefix,
        escapes: capture.escapes.copy(),
    };
    Ok(
        PreparedProcess {
            command: command_from(&process.command, argv),
            target: Some(target),
        },
    )
}

/// The words that start a collection. Extra options stand ahead of the managed
/// ones; the extra variables reach only the profiler.
pub open spec fn start_words(target: ProfilerTargetRecord, output: Seq<char>, range_count: nat) -> Seq<
    Seq<char>,
> {
    env_prefix_words(target.escapes.env.entries@) + seq![target.executable@, "start"@] + texts(
        target.escapes.start_options@,
    ) + seq![
        "--session="@ + target.session@,
        "--sample="@ + match target.escapes.sampling {
            Some(value) => value@,
            None => "none"@,
        },
        "--cpuctxsw="@ + match target.escapes.context_switch {
            Some(value) => value@,
            None => "none"@,
        },
        "--force-overwrite=true"@,
        "--export=none"@,
        "--output="@ + output,
        "--capture-range=cudaProfilerApi"@,
        "--capture-range-end=repeat:"@ + crate::text::decimal(range_count) + ":async"@,
    ]
}

/// The words that start a collection.
pub fn nsys_start_argv(target: &ProfilerTargetRecord, output: &str, range_count: usize) -> (r: Vec<
    String,
>)
    ensures
        texts(r@) == start_words(*target, output@, range_count as nat),
{
    let mut argv = env_prefix(&target.escapes.env);
    push_word(&mut argv, target.executable.clone());
    push_word(&mut argv, "start".to_owned());
    push_all(&mut argv, target.escapes.start_options.as_slice());
    push_word(&mut argv, cat2("--session=", target.session.as_str()));
    let sampling = match &target.escapes.sampling {
        Some(value) => value.as_str(),
        None => "none",
    };
    push_word(&mut argv, cat2("--sample=", sampling));
    let switches = match &target.escapes.context_switch {
        Some(value) => value.as_str(),
        None => "none",
    };
    push_word(&mut argv, cat2("--cpuctxsw=", switches));
    push_word(&mut argv, "--force-overwrite=true".to_owned());
    push_word(&mut argv, "--export=none".to_owned());
    push_word(&mut argv, cat2("--output=", output));
    push_word(&mut argv, "--capture-range=cudaProfilerApi".to_owned());
    push_word(
        &mut argv,
        cat3(
            "--capture-range-end=repeat:",
            crate::text::to_decimal(range_count as u64).as_str(),
            ":async",
        ),
    );
    assert(texts(argv@) =~= start_words(*target, output@, range_count as nat));
    argv
}

/// The words that end a collection.
pub fn nsys_stop_argv(executable: &str, session: &str) -> (r: Vec<String>)
    ensures
        texts(r@) == seq![executable@, "stop"@, "--session="@ + session@],
{
    let argv: Vec<String> = vec![
        executable.to_owned(),
        "stop".to_owned(),
        cat2("--session=", session),
    ];
    assert(texts(argv@) =~= seq![executable@, "stop"@, "--session="@ + session@]);
    argv
}

// ---------------------------------------------------------------------------
// Laws

/// A profiled process runs the serving command unchanged: its words end the words
/// of the launch, after those of the profiler.
pub proof fn law_profiled_command_ends_with_the_serving_command(
    escapes: NsysEscapes,
    session: Seq<char>,
    serving: Seq<Seq<char>>,
)
    ensures
        (launch_words(escapes, session) + serving).skip(
            launch_words(escapes, session).len() as int,
        ) == serving,
        launch_words(escapes, session).len() > 0,
        launch_words(escapes, session).last() == "--wait=all"@,
{
    assert((launch_words(escapes, session) + serving).skip(
        launch_words(escapes, session).len() as int,
    ) =~= serving);
}

/// A session name holds only characters that a command line takes as one word.
pub proof fn law_session_names_are_one_word(record_id: Seq<char>, process_id: Seq<char>, i: int)
    requires
        0 <= i < session_text(record_id, process_id).len(),
    ensures
        session_char(session_text(record_id, process_id)[i]),
{
    reveal_strlit("inferlab-");
    reveal_strlit("-");
    let a = "inferlab-"@;
    let b = sanitized(record_id);
    let c = "-"@;
    let d = sanitized(process_id);
    assert(forall|j: int| 0 <= j < b.len() ==> session_char(#[trigger] b[j]));
    assert(forall|j: int| 0 <= j < d.len() ==> session_char(#[trigger] d[j]));
    assert(forall|j: int| 0 <= j < a.len() ==> session_char(#[trigger] a[j]));
    let whole = a + b + c + d;
    if i < a.len() {
        assert(whole[i] == a[i]);
    } else if i < a.len() + b.len() {
        assert(whole[i] == b[i - a.len()]);
    } else if i < a.len() + b.len() + c.len() {
        assert(whole[i] == c[i - a.len() - b.len()]);
    } else {
        assert(whole[i] == d[i - a.len() - b.len() - c.len()]);
    }
}

/// A target is controlled as its capture says: through the process and at the endpoint
/// of the capture, windows are opened at its start path and closed at its stop path.
pub proof fn law_target_is_controlled_as_its_capture_says(
    target: ProfilerTargetRecord,
    place: ProcessPlace,
    process: ProcessPlan,
    capture: ProcessCapturePlan,
    endpoint: EndpointAssignment,
    deadline: u64,
)
    requires
        target_is(target, place, process, capture, endpoint, deadline),
    ensures
        target.control matches ProfilerControl::Http {
            process_id,
            endpoint: at,
            start_path,
            stop_path,
            deadline_seconds,
        } && {
            &&& process_id@ == capture.control_process_id@
            &&& at.host@ == endpoint.host@ && at.port == endpoint.port
            &&& start_path@ == capture.start.path@
            &&& stop_path@ == capture.stop.path@
            &&& deadline_seconds == deadline
        },
        target.process_id@ == process.id@,
        target.role_id@ == place.role_id@,
        target.replica_id@ == place.replica_id@,
        target.replica_index == place.replica_index,
        process.identity matches ProcessIdentityPlan::ModelRank { rank, .. } ==> target.rank == rank,
        target.command_cwd@ == process.command.cwd@,
        process.launch is Local <==> target.launch is Local,
        process.launch matches LaunchPlan::Ssh { target: to } ==> (
        target.launch matches ProfilerLaunch::Ssh { target: found } && found@ == to@),
{
}

/// The words that launch a process under the profiler end with the managed ones: the
/// session, what is traced and the wait. Options of the operator stand before them, and
/// variables before the program.
pub proof fn law_managed_launch_words_come_last(escapes: NsysEscapes, session: Seq<char>)
    ensures
        ({
            let words = launch_words(escapes, session);
            let n = words.len() as int;
            let options = escapes.launch_options@.len() as int;
            let from = if escapes.env.entries@.len() == 0 {
                0
            } else {
                2 + escapes.env.entries@.len() as int
            };
            &&& n == from + 2 + options + 4
            &&& words[n - 4] == "--session-new"@
            &&& words[n - 3] == session
            &&& escapes.trace@.len() == 0 ==> words[n - 2] == "--trace="@ + "cuda,nvtx,osrt"@
            &&& words[n - 1] == "--wait=all"@
            &&& forall|i: int|
                0 <= i < options ==> #[trigger] words[n - 4 - options + i]
                    == escapes.launch_options@[i]@
            &&& words[from + 1] == "launch"@
            &&& (escapes.executable matches Some(program) ==> words[from] == program@)
            &&& escapes.executable is None ==> words[from] == "nsys"@
            &&& forall|i: int|
                0 <= i < escapes.env.entries@.len() ==> #[trigger] words[2 + i]
                    == escapes.env.entries@[i].0@ + "="@ + escapes.env.entries@[i].1@
        }),
{
    let options = texts(escapes.launch_options@);
    let words = launch_words(escapes, session);
    let n = words.len() as int;
    assert forall|i: int| 0 <= i < options.len() implies #[trigger] words[n - 4 - options.len() + i]
        == escapes.launch_options@[i]@ by {
        assert(words[n - 4 - options.len() + i] == options[i]);
    }
}

/// The words that start a collection end with the managed ones: they name the session of
/// the target, where its reports go and how many windows are awaited. Options of the
/// operator stand before them.
pub proof fn law_collection_is_that_of_its_session(
    target: ProfilerTargetRecord,
    output: Seq<char>,
    range_count: nat,
)
    ensures
        ({
            let words = start_words(target, output, range_count);
            let n = words.len() as int;
            let options = target.escapes.start_options@.len() as int;
            &&& words[n - 8] == "--session="@ + target.session@
            &&& words[n - 3] == "--output="@ + output
            &&& words[n - 2] == "--capture-range=cudaProfilerApi"@
            &&& words[n - 1] == "--capture-range-end=repeat:"@ + crate::text::decimal(range_count)
                + ":async"@
            &&& (target.escapes.sampling matches Some(value) ==> words[n - 7] == "--sample="@
                + value@)
            &&& (target.escapes.context_switch matches Some(value) ==> words[n - 6]
                == "--cpuctxsw="@ + value@)
            &&& words[n - 9 - options] == "start"@
            &&& words[n - 10 - options] == target.executable@
            &&& forall|i: int|
                0 <= i < options ==> #[trigger] words[n - 8 - options + i]
                    == target.escapes.start_options@[i]@
        }),
{
    let options = texts(target.escapes.start_options@);
    let words = start_words(target, output, range_count);
    let n = words.len() as int;
    assert forall|i: int| 0 <= i < options.len() implies #[trigger] words[n - 8 - options.len() + i]
        == target.escapes.start_options@[i]@ by {
        assert(words[n - 8 - options.len() + i] == options[i]);
    }
}

/// A name is kept as it is where it holds only what a session name may hold; every other
/// character is replaced by one, so no name gets longer or shorter.
pub proof fn law_sanitized_name_keeps_what_it_may(value: Seq<char>, i: int)
    requires
        0 <= i < value.len(),
    ensures
        sanitized(value).len() == value.len(),
        session_char(value[i]) ==> sanitized(value)[i] == value[i],
        !session_char(value[i]) ==> sanitized(value)[i] == '-',
        'a' <= value[i] <= 'z' || 'A' <= value[i] <= 'Z' || '0' <= value[i] <= '9' ==> session_char(
            value[i],
        ),
        value[i] == '/' || value[i] == ' ' ==> !session_char(value[i]),
{
}

/// A process runs with its own words, directory and variables: alone where it is not
/// profiled, and behind the words of the profiler where it is, which leaves them as they
/// are. Only a profiled process is a target, under its own name.
pub proof fn law_prepared_process_keeps_its_command(
    r: Result<PreparedProcess, InferlabError>,
    place: ProcessPlace,
    process: ProcessPlan,
    processes: Seq<ProcessPlan>,
    control_deadline_seconds: u64,
)
    requires
        prepared_as(r, place, process, processes, control_deadline_seconds),
        r is Ok,
    ensures
        ({
            let prepared = r->Ok_0;
            let own = texts(process.command.argv@);
            let words = texts(prepared.command.argv@);
            &&& prepared.target is Some <==> process.capture_target is Some
            &&& process.capture_target is None ==> words == own
            &&& own.len() <= words.len() && words.skip(words.len() - own.len()) == own
            &&& prepared.command.cwd@ == process.command.cwd@
            &&& prepared.command.env.entries@ == process.command.env.entries@
            &&& prepared.command.explicit_env@ == process.command.explicit_env@
            &&& prepared.command.pass_env@ == process.command.pass_env@
            &&& prepared.target matches Some(target) ==> {
                &&& target.process_id@ == process.id@
                &&& words == texts(target.launch_prefix@) + own
            }
        }),
{
    let own = texts(process.command.argv@);
    let words = texts(r->Ok_0.command.argv@);
    assert(words.skip(words.len() - own.len()) =~= own);
}

} // verus!
