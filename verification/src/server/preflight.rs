//! The remote preflight: what a machine must show before processes are launched
//! on it, and what its answer changes in their commands.

use crate::dict::{lookup, with_entry, Dict};
use crate::process_group::CommandOutput;
use crate::paths::{parent_dir, parent_path};
use crate::resolve::allocation::LaunchPlan;
use crate::resolve::realization::{CommandPlan, ProcessPlan};
use crate::search::{first_some, lemma_first_some_stays};
use crate::shell::{quoted, shell_quote, shell_quote_path};
use crate::text::{
    cat2, cat3, cat4, cat5, cat6, cat7, debug, debug_text, decode_bytes, decode_lossy,
    find_last_marked, join, joined, last_marked, lossy_text, parse_i32, parse_unsigned,
    parsed_signed, parsed_unsigned, same, split, split_on, text_lines, texts, trim, trimmed,
    utf8_error, words, words_of,
};
use crate::workspace::WorkspaceSnapshot;
use vstd::prelude::*;
use vstd::slice::slice_to_vec;
use vstd::string::*;
use vstd::utf8::{decode_utf8, valid_utf8};

verus! {

/// What the line of a workspace preflight begins with.
pub const PREFLIGHT_MARKER: &'static str = "INFERLAB_PREFLIGHT\t";

/// What the line of a container preflight begins with.
pub const CONTAINER_PREFLIGHT_MARKER: &'static str = "INFERLAB_CONTAINER_PREFLIGHT\t";

/// What a workspace preflight reports.
#[derive(Debug)]
pub struct PreflightOutput {
    pub revision: String,
    pub dirty: bool,
    pub source_digest: String,
    pub pixi_manifest_sha256: String,
    pub pixi_lock_sha256: String,
    pub pixi_executable: String,
    pub path: String,
    pub home: String,
    pub pixi_status: i32,
}

/// A remote workspace that matches the controller's.
#[derive(Debug)]
pub struct RemoteWorkspacePlan {
    pub target: String,
    pub path: String,
    pub revision: String,
    pub dirty: bool,
    pub source_digest: String,
    pub pixi_manifest_sha256: String,
    pub pixi_lock_sha256: String,
    pub pixi_environment: String,
    pub pixi_executable: String,
    pub home: String,
    pub search_path: String,
}

// ---------------------------------------------------------------------------
// Workspace preflight

/// What goes into the script of a workspace preflight.
pub struct WorkspaceScript<'a> {
    pub root: &'a str,
    pub status_flags: &'a str,
    pub source_pathspecs: &'a str,
    pub source_digest: &'a str,
    pub confirmation_cache_dir: &'a str,
    pub pixi_envs_dir: &'a str,
    pub environment: &'a str,
}

/// The parts of the script, in order.
pub open spec fn workspace_script_parts(script: WorkspaceScript) -> Seq<Seq<char>> {
    let environment = quoted(script.environment@);
    seq![
        "set -eu; cd "@,
        quoted(script.root@),
        "; pixi=$(type -P pixi); revision=$(git rev-parse HEAD); dirty=0; test -z \"$(git status "@,
        script.status_flags@,
        " -- "@,
        script.source_pathspecs@,
        ")\" || dirty=1; source_digest=$("@,
        script.source_digest@,
        "); manifest=$(sha256sum pixi.toml | awk '{print $1}'); lock=$(sha256sum pixi.lock | awk '{print $1}'); marker="@,
        script.confirmation_cache_dir@,
        "/"@,
        environment,
        "/confirmed; set +e; if test -d "@,
        script.pixi_envs_dir@,
        "/"@,
        environment,
        " && test -f \"$marker\" && [ \"$(sed -n 1p \"$marker\" 2>/dev/null)\" = \"$manifest\" ] && [ \"$(sed -n 2p \"$marker\" 2>/dev/null)\" = \"$lock\" ]; then pixi_status=0; else test -d "@,
        script.pixi_envs_dir@,
        "/"@,
        environment,
        " && \"$pixi\" run --locked --no-install --executable -e "@,
        environment,
        " -- true; pixi_status=$?; if [ \"$pixi_status\" = 0 ]; then mkdir -p \"$(dirname \"$marker\")\" && printf '%s\\n%s\\n' \"$manifest\" \"$lock\" > \"$marker.tmp.$$\" && mv \"$marker.tmp.$$\" \"$marker\"; fi; fi; set -e; printf 'INFERLAB_PREFLIGHT\\t%s\\t%s\\t%s\\t%s\\t%s\\t%s\\t%s\\t%s\\t%s\\n' \"$revision\" \"$dirty\" \"$source_digest\" \"$manifest\" \"$lock\" \"$pixi\" \"$PATH\" \"$HOME\" \"$pixi_status\"; exit \"$pixi_status\""@,
    ]
}

/// The script of a workspace preflight: it reports the state of the remote
/// checkout and of its locked environment, and exits with the environment's
/// status.
pub fn workspace_script(script: &WorkspaceScript) -> (r: String)
    ensures
        r@ == joined(workspace_script_parts(*script), ""@),
{
    let environment = shell_quote(script.environment);
    let mut parts: Vec<String> = Vec::new();
    parts.push("set -eu; cd ".to_owned());
    parts.push(shell_quote_path(script.root));
    parts.push("; pixi=$(type -P pixi); revision=$(git rev-parse HEAD); dirty=0; test -z \"$(git status ".to_owned());
    parts.push(script.status_flags.to_owned());
    parts.push(" -- ".to_owned());
    parts.push(script.source_pathspecs.to_owned());
    parts.push(")\" || dirty=1; source_digest=$(".to_owned());
    parts.push(script.source_digest.to_owned());
    parts.push("); manifest=$(sha256sum pixi.toml | awk '{print $1}'); lock=$(sha256sum pixi.lock | awk '{print $1}'); marker=".to_owned());
    parts.push(script.confirmation_cache_dir.to_owned());
    parts.push("/".to_owned());
    parts.push(environment.clone());
    parts.push("/confirmed; set +e; if test -d ".to_owned());
    parts.push(script.pixi_envs_dir.to_owned());
    parts.push("/".to_owned());
    parts.push(environment.clone());
    parts.push(" && test -f \"$marker\" && [ \"$(sed -n 1p \"$marker\" 2>/dev/null)\" = \"$manifest\" ] && [ \"$(sed -n 2p \"$marker\" 2>/dev/null)\" = \"$lock\" ]; then pixi_status=0; else test -d ".to_owned());
    parts.push(script.pixi_envs_dir.to_owned());
    parts.push("/".to_owned());
    parts.push(environment.clone());
    parts.push(" && \"$pixi\" run --locked --no-install --executable -e ".to_owned());
    parts.push(environment);
    parts.push(" -- true; pixi_status=$?; if [ \"$pixi_status\" = 0 ]; then mkdir -p \"$(dirname \"$marker\")\" && printf '%s\\n%s\\n' \"$manifest\" \"$lock\" > \"$marker.tmp.$$\" && mv \"$marker.tmp.$$\" \"$marker\"; fi; fi; set -e; printf 'INFERLAB_PREFLIGHT\\t%s\\t%s\\t%s\\t%s\\t%s\\t%s\\t%s\\t%s\\t%s\\n' \"$revision\" \"$dirty\" \"$source_digest\" \"$manifest\" \"$lock\" \"$pixi\" \"$PATH\" \"$HOME\" \"$pixi_status\"; exit \"$pixi_status\"".to_owned());
    assert(texts(parts@) =~= workspace_script_parts(*script));
    join(parts.as_slice(), "")
}

/// Whether a report is what a marked line says: its fields, and a status that is
/// a number.
pub open spec fn reports(found: PreflightOutput, fields: Seq<Seq<char>>) -> bool {
    &&& fields.len() >= 9
    &&& found.revision@ == fields[0]
    &&& found.dirty == (fields[1] == "1"@)
    &&& found.source_digest@ == fields[2]
    &&& found.pixi_manifest_sha256@ == fields[3]
    &&& found.pixi_lock_sha256@ == fields[4]
    &&& found.pixi_executable@ == fields[5]
    &&& found.path@ == fields[6]
    &&& found.home@ == fields[7]
    &&& parsed_signed(fields[8]) == Some(found.pixi_status as int)
}

/// The fields of the report in an output, where it has one.
pub open spec fn report_fields(output: Seq<char>) -> Option<Seq<Seq<char>>> {
    match last_marked(text_lines(output), PREFLIGHT_MARKER@) {
        None => None,
        Some(payload) => {
            let fields = split_on(payload, '\t');
            if fields.len() >= 9 && parsed_signed(fields[8]) is Some {
                Some(fields)
            } else {
                None
            }
        },
    }
}

/// Reads the report of a workspace preflight: the last marked line counts.
pub fn parse_preflight_output(output: &str) -> (r: Option<PreflightOutput>)
    ensures
        match report_fields(output@) {
            None => r is None,
            Some(fields) => r matches Some(found) && reports(found, fields),
        },
{
    let payload = match find_last_marked(output, PREFLIGHT_MARKER) {
        Some(payload) => payload,
        None => return None,
    };
    let fields = split(payload.as_str(), '\t');
    let ghost all = split_on(payload@, '\t');
    assert(texts(fields@).len() == fields@.len());
    if fields.len() < 9 {
        return None;
    }
    assert(forall|i: int| 0 <= i < 9 ==> all[i] == (#[trigger] fields@[i])@);
    let pixi_status: i32 = match parse_i32(fields[8].as_str()) {
        Some(status) => status,
        None => return None,
    };
    Some(
        PreflightOutput {
            revision: fields[0].clone(),
            dirty: same(fields[1].as_str(), "1"),
            source_digest: fields[2].clone(),
            pixi_manifest_sha256: fields[3].clone(),
            pixi_lock_sha256: fields[4].clone(),
            pixi_executable: fields[5].clone(),
            path: fields[6].clone(),
            home: fields[7].clone(),
            pixi_status,
        },
    )
}

/// Whether a report shows the controller's workspace.
pub open spec fn matches_workspace(fields: Seq<Seq<char>>, workspace: WorkspaceSnapshot) -> bool {
    &&& fields[0] == workspace.revision@
    &&& (fields[1] == "1"@) == workspace.dirty
    &&& fields[2] == workspace.source_digest@
    &&& fields[3] == workspace.pixi_manifest_sha256@
    &&& fields[4] == workspace.pixi_lock_sha256@
}

/// A machine with its target, as messages name it.
pub open spec fn machine_text(machine: Seq<char>, target: Seq<char>) -> Seq<char> {
    "machine "@ + debug_text(machine) + " ("@ + target + ")"@
}

/// Why an answer carries no evidence.
pub open spec fn no_evidence_text(
    machine: Seq<char>,
    target: Seq<char>,
    operation: Seq<char>,
    output: CommandOutput,
) -> Seq<char> {
    machine_text(machine, target) + " exited with "@ + output.status@ + " before returning "@
        + operation + " evidence: "@ + trimmed(lossy_text(output.stderr@))
}

/// The fields of a machine's report, or why it is refused.
pub open spec fn workspace_answer(
    machine: Seq<char>,
    target: Seq<char>,
    root: Seq<char>,
    answer: Result<CommandOutput, String>,
    workspace: WorkspaceSnapshot,
    environment: Seq<char>,
) -> Result<Seq<Seq<char>>, Seq<char>> {
    match answer {
        Err(source) => Err("failed to probe machine "@ + debug_text(machine) + ": "@ + source@),
        Ok(output) => if !valid_utf8(output.stdout@) {
            Err(
                machine_text(machine, target)
                    + " returned non-UTF-8 workspace preflight output: "@ + utf8_error(
                    output.stdout@,
                ),
            )
        } else {
            match report_fields(decode_utf8(output.stdout@)) {
                None => Err(
                    no_evidence_text(machine, target, "workspace preflight"@, output),
                ),
                Some(fields) => if !matches_workspace(fields, workspace) {
                    Err(
                        machine_text(machine, target) + " workspace "@ + root
                            + " does not match the controller workspace"@,
                    )
                } else if parsed_signed(fields[8]) != Some(0int) {
                    Err(
                        machine_text(machine, target)
                            + " does not have locked Pixi environment "@ + debug_text(environment)
                            + " materialized in "@ + root + ("; run `cd "@ + root + " && "@
                            + fields[5] + " install --locked --environment "@ + environment + (
                        "`: "@ + trimmed(lossy_text(output.stderr@)))),
                    )
                } else {
                    Ok(fields)
                },
            }
        },
    }
}

/// Whether a plan is the workspace that a machine reported.
pub open spec fn is_workspace(
    plan: RemoteWorkspacePlan,
    target: Seq<char>,
    root: Seq<char>,
    fields: Seq<Seq<char>>,
    environment: Seq<char>,
) -> bool {
    &&& plan.target@ == target
    &&& plan.path@ == root
    &&& plan.revision@ == fields[0]
    &&& plan.dirty == (fields[1] == "1"@)
    &&& plan.source_digest@ == fields[2]
    &&& plan.pixi_manifest_sha256@ == fields[3]
    &&& plan.pixi_lock_sha256@ == fields[4]
    &&& plan.pixi_environment@ == environment
    &&& plan.pixi_executable@ == fields[5]
    &&& plan.search_path@ == fields[6]
    &&& plan.home@ == fields[7]
}

fn name_machine(machine: &str, target: &str) -> (r: String)
    ensures
        r@ == machine_text(machine@, target@),
{
    cat5("machine ", debug(machine).as_str(), " (", target, ")")
}

/// Accepts the answer of a machine: its checkout must be the controller's and its
/// locked environment must be there.
pub fn check_workspace_answer(
    machine: &str,
    target: &str,
    root: &str,
    answer: &Result<CommandOutput, String>,
    workspace: &WorkspaceSnapshot,
    environment: &str,
) -> (r: Result<RemoteWorkspacePlan, String>)
    ensures
        match workspace_answer(machine@, target@, root@, *answer, *workspace, environment@) {
            Err(text) => r matches Err(found) && found@ == text,
            Ok(fields) => r matches Ok(plan) && is_workspace(
                plan,
                target@,
                root@,
                fields,
                environment@,
            ),
        },
{
    let output = match answer {
        Ok(output) => output,
        Err(source) => return Err(
            cat4("failed to probe machine ", debug(machine).as_str(), ": ", source.as_str()),
        ),
    };
    let who = name_machine(machine, target);
    let stdout = match decode_bytes(slice_to_vec(output.stdout.as_slice())) {
        Ok(stdout) => stdout,
        Err(source) => return Err(
            cat3(
                who.as_str(),
                " returned non-UTF-8 workspace preflight output: ",
                source.as_str(),
            ),
        ),
    };
    let stderr = decode_lossy(output.stderr.as_slice());
    let observed = match parse_preflight_output(stdout.as_str()) {
        Some(observed) => observed,
        None => return Err(
            cat7(
                who.as_str(),
                " exited with ",
                output.status.as_str(),
                " before returning ",
                "workspace preflight",
                " evidence: ",
                trim(stderr.as_str()),
            ),
        ),
    };
    if !same(observed.revision.as_str(), workspace.revision.as_str()) || observed.dirty
        != workspace.dirty || !same(
        observed.source_digest.as_str(),
        workspace.source_digest.as_str(),
    ) || !same(
        observed.pixi_manifest_sha256.as_str(),
        workspace.pixi_manifest_sha256.as_str(),
    ) || !same(observed.pixi_lock_sha256.as_str(), workspace.pixi_lock_sha256.as_str()) {
        return Err(
            cat4(who.as_str(), " workspace ", root, " does not match the controller workspace"),
        );
    }
    if observed.pixi_status != 0 {
        let end = cat2("`: ", trim(stderr.as_str()));
        let repair = cat7(
            "; run `cd ",
            root,
            " && ",
            observed.pixi_executable.as_str(),
            " install --locked --environment ",
            environment,
            end.as_str(),
        );
        return Err(
            cat6(
                who.as_str(),
                " does not have locked Pixi environment ",
                debug(environment).as_str(),
                " materialized in ",
                root,
                repair.as_str(),
            ),
        );
    }
    Ok(
        RemoteWorkspacePlan {
            target: target.to_owned(),
            path: root.to_owned(),
            revision: observed.revision,
            dirty: observed.dirty,
            source_digest: observed.source_digest,
            pixi_manifest_sha256: observed.pixi_manifest_sha256,
            pixi_lock_sha256: observed.pixi_lock_sha256,
            pixi_environment: environment.to_owned(),
            pixi_executable: observed.pixi_executable,
            home: observed.home,
            search_path: observed.path,
        },
    )
}

// ---------------------------------------------------------------------------
// Remote machines

/// The target of a process that is launched over SSH.
pub open spec fn remote_target(plan: ProcessPlan) -> Option<Seq<char>> {
    match plan.launch {
        LaunchPlan::Ssh { target } => Some(target@),
        LaunchPlan::Local => None,
    }
}

/// The remote machines in the order of their names, each with the place of its
/// first process.
pub open spec fn remote_firsts(processes: Seq<ProcessPlan>) -> Seq<(String, usize)>
    decreases processes.len(),
{
    if processes.len() == 0 {
        Seq::empty()
    } else {
        let before = remote_firsts(processes.drop_last());
        let last = processes[processes.len() - 1];
        if remote_target(last) is Some && lookup(before, last.machine@) is None {
            with_entry(before, last.machine, (processes.len() - 1) as usize)
        } else {
            before
        }
    }
}

/// Every place is one of a remote process on the machine.
#[verifier::spinoff_prover]
#[verifier::rlimit(40)]
proof fn lemma_remote_firsts(processes: Seq<ProcessPlan>)
    requires
        processes.len() <= usize::MAX,
    ensures
        crate::dict::in_order(remote_firsts(processes)),
        forall|k: int|
            0 <= k < remote_firsts(processes).len() ==> {
                let entry = #[trigger] remote_firsts(processes)[k];
                entry.1 < processes.len() && processes[entry.1 as int].machine@ == entry.0@
                    && remote_target(processes[entry.1 as int]) is Some
            },
        forall|i: int|
            0 <= i < processes.len() && remote_target(#[trigger] processes[i]) is Some ==> lookup(
                remote_firsts(processes),
                processes[i].machine@,
            ) is Some,
    decreases processes.len(),
{
    if processes.len() > 0 {
        let front = processes.drop_last();
        let last = processes[processes.len() - 1];
        lemma_remote_firsts(front);
        let before = remote_firsts(front);
        let after = remote_firsts(processes);
        if remote_target(last) is Some && lookup(before, last.machine@) is None {
            let at = (processes.len() - 1) as usize;
            crate::dict::lemma_with_entry_in_order(before, last.machine, at);
            assert forall|k: int| 0 <= k < after.len() implies {
                let entry = #[trigger] after[k];
                entry.1 < processes.len() && processes[entry.1 as int].machine@ == entry.0@
                    && remote_target(processes[entry.1 as int]) is Some
            } by {
                crate::dict::lemma_rank(before, last.machine@);
                let place = crate::dict::rank(before, last.machine@);
                if k < place {
                    assert(after[k] == before[k]);
                } else if k > place {
                    assert(after[k] == before[k - 1]);
                }
            }
        } else {
            assert forall|k: int| 0 <= k < after.len() implies {
                let entry = #[trigger] after[k];
                entry.1 < processes.len() && processes[entry.1 as int].machine@ == entry.0@
                    && remote_target(processes[entry.1 as int]) is Some
            } by {
                assert(after[k] == before[k]);
            }
        }
        assert forall|i: int|
            0 <= i < processes.len() && remote_target(#[trigger] processes[i]) is Some implies lookup(
            after,
            processes[i].machine@,
        ) is Some by {
            if remote_target(last) is Some && lookup(before, last.machine@) is None {
                crate::dict::lemma_with_entry_lookup(
                    before,
                    last.machine,
                    (processes.len() - 1) as usize,
                    processes[i].machine@,
                );
            }
            if i < front.len() {
                assert(front[i] == processes[i]);
            }
        }
    }
}

/// The remote machines that the processes use, each with the place of its first
/// process.
pub fn remote_machines(processes: &[ProcessPlan]) -> (r: Dict<usize>)
    ensures
        r.entries@ == remote_firsts(processes@),
        r.wf(),
{
    let mut out: Dict<usize> = Dict::new();
    let mut i: usize = 0;
    assert(processes@.take(0) =~= Seq::<ProcessPlan>::empty());
    assert(out.entries@ =~= Seq::<(String, usize)>::empty());
    while i < processes.len()
        invariant
            i <= processes@.len(),
            out.entries@ == remote_firsts(processes@.take(i as int)),
        decreases processes@.len() - i,
    {
        let process = &processes[i];
        proof {
            assert(processes@.take(i + 1).drop_last() =~= processes@.take(i as int));
            assert(processes@.take(i + 1)[i as int] == *process);
        }
        if let LaunchPlan::Ssh { .. } = &process.launch {
            if !out.contains_key(process.machine.as_str()) {
                out.insert(process.machine.clone(), i);
            }
        }
        i += 1;
    }
    proof {
        assert(processes@.take(processes@.len() as int) =~= processes@);
        lemma_remote_firsts(processes@);
    }
    out
}

/// Whether a plan is another one whose command runs in the environment of a
/// remote machine, with another executable where one is given.
pub open spec fn runs_remotely(
    plan: ProcessPlan,
    before: ProcessPlan,
    executable: Option<Seq<char>>,
    home: Seq<char>,
    path: Seq<char>,
) -> bool {
    &&& plan.id == before.id
    &&& plan.identity == before.identity
    &&& plan.command_source == before.command_source
    &&& plan.machine == before.machine
    &&& plan.launch == before.launch
    &&& plan.launch_dependencies == before.launch_dependencies
    &&& plan.allocation == before.allocation
    &&& plan.communication_interface == before.communication_interface
    &&& match executable {
        Some(word) => texts(plan.command.argv@) == texts(before.command.argv@).update(0, word),
        None => plan.command.argv == before.command.argv,
    }
    &&& plan.command.explicit_env == before.command.explicit_env
    &&& plan.command.pass_env == before.command.pass_env
    &&& plan.command.cwd == before.command.cwd
    &&& plan.command.env.wf()
    &&& forall|key: Seq<char>| #[trigger]
        plan.command.env.text_at(key) == if key == "PATH"@ {
            Some(path)
        } else if key == "HOME"@ {
            Some(home)
        } else {
            before.command.env.text_at(key)
        }
    &&& plan.launch_files == before.launch_files
    &&& plan.readiness == before.readiness
    &&& plan.endpoint == before.endpoint
    &&& plan.capture_target == before.capture_target
}

fn run_remotely<'a>(plan: ProcessPlan<'a>, executable: Option<&str>, home: &str, path: &str) -> (r:
    ProcessPlan<'a>)
    requires
        plan.command.env.wf(),
        executable is Some ==> plan.command.argv@.len() > 0,
    ensures
        runs_remotely(
            r,
            plan,
            match executable {
                Some(word) => Some(word@),
                None => None,
            },
            home@,
            path@,
        ),
{
    let ProcessPlan {
        id,
        identity,
        command_source,
        machine,
        launch,
        launch_dependencies,
        allocation,
        communication_interface,
        command,
        launch_files,
        readiness,
        endpoint,
        capture_target,
    } = plan;
    let CommandPlan { argv, env, explicit_env, pass_env, cwd } = command;
    let mut argv = argv;
    let ghost words_before = texts(argv@);
    if let Some(word) = executable {
        argv.set(0, word.to_owned());
        assert(texts(argv@) =~= words_before.update(0, word@));
    }
    let mut env = env;
    proof {
        reveal_strlit("HOME");
        reveal_strlit("PATH");
        assert("HOME"@[0] != "PATH"@[0]);
    }
    env.set_text("HOME", home.to_owned());
    env.set_text("PATH", path.to_owned());
    ProcessPlan {
        id,
        identity,
        command_source,
        machine,
        launch,
        launch_dependencies,
        allocation,
        communication_interface,
        command: CommandPlan { argv, env, explicit_env, pass_env, cwd },
        launch_files,
        readiness,
        endpoint,
        capture_target,
    }
}

// ---------------------------------------------------------------------------
// Preflight of workspaces

/// The directory that a process's checkout is in.
pub open spec fn checkout_root(plan: ProcessPlan) -> Seq<char> {
    parent_dir(plan.command.cwd@)
}

/// What the answers of the machines come to, by place among the machines.
pub open spec fn workspace_answers(
    processes: Seq<ProcessPlan>,
    answers: Seq<Result<CommandOutput, String>>,
    workspace: WorkspaceSnapshot,
    environment: Seq<char>,
) -> spec_fn(int) -> Result<Seq<Seq<char>>, Seq<char>> {
    |k: int|
        {
            let first = processes[remote_firsts(processes)[k].1 as int];
            workspace_answer(
                first.machine@,
                remote_target(first)->0,
                checkout_root(first),
                answers[k],
                workspace,
                environment,
            )
        }
}

/// The faults among answers, by place.
pub open spec fn faults_of<T>(answers: spec_fn(int) -> Result<T, Seq<char>>) -> spec_fn(int) -> Option<
    Seq<char>,
> {
    |k: int|
        match answers(k) {
            Ok(_) => None,
            Err(text) => Some(text),
        }
}

/// The remote processes without a command, by place.
pub open spec fn command_faults(processes: Seq<ProcessPlan>) -> spec_fn(int) -> Option<Seq<char>> {
    |i: int|
        if remote_target(processes[i]) is Some && processes[i].command.argv@.len() == 0 {
            Some("process "@ + debug_text(processes[i].id@) + " has no executable"@)
        } else {
            None
        }
}

/// The workspace of a machine among those that were accepted.
pub open spec fn accepted_at(accepted: Seq<(String, RemoteWorkspacePlan)>, machine: Seq<char>) -> Option<
    RemoteWorkspacePlan,
> {
    lookup(accepted, machine)
}

/// Whether a process is what the preflight made of it.
pub open spec fn preflighted(
    plan: ProcessPlan,
    before: ProcessPlan,
    accepted: Seq<(String, RemoteWorkspacePlan)>,
) -> bool {
    match remote_target(before) {
        None => plan == before,
        Some(_) => accepted_at(accepted, before.machine@) matches Some(workspace) && runs_remotely(
            plan,
            before,
            Some(workspace.pixi_executable@),
            workspace.home@,
            workspace.search_path@,
        ),
    }
}

/// Why the preflight fails, if it does: the first machine whose answer is
/// refused, or else the first remote process without a command.
pub open spec fn preflight_fault(
    processes: Seq<ProcessPlan>,
    answers: Seq<Result<CommandOutput, String>>,
    workspace: WorkspaceSnapshot,
    environment: Seq<char>,
) -> Option<Seq<char>> {
    match first_some(
        remote_firsts(processes).len(),
        faults_of(workspace_answers(processes, answers, workspace, environment)),
    ) {
        Some(text) => Some(text),
        None => first_some(processes.len(), command_faults(processes)),
    }
}

/// Checks the answers of the remote machines and points the commands of their
/// processes at the environments that they reported.
pub fn preflight_targets<'a>(
    processes: Vec<ProcessPlan<'a>>,
    answers: &[Result<CommandOutput, String>],
    workspace: &WorkspaceSnapshot,
    pixi_environment: &str,
) -> (r: Result<(Vec<ProcessPlan<'a>>, Dict<RemoteWorkspacePlan>), String>)
    requires
        answers@.len() == remote_firsts(processes@).len(),
        forall|i: int| 0 <= i < processes@.len() ==> (#[trigger] processes@[i]).command.env.wf(),
    ensures
        match preflight_fault(processes@, answers@, *workspace, pixi_environment@) {
            Some(text) => r matches Err(found) && found@ == text,
            None => r matches Ok((plans, accepted)) && {
                let firsts = remote_firsts(processes@);
                &&& accepted.wf()
                &&& accepted.entries@.len() == firsts.len()
                &&& forall|k: int|
                    0 <= k < firsts.len() ==> {
                        let entry = #[trigger] accepted.entries@[k];
                        let first = processes@[firsts[k].1 as int];
                        entry.0 == firsts[k].0 && is_workspace(
                            entry.1,
                            remote_target(first)->0,
                            checkout_root(first),
                            workspace_answers(
                                processes@,
                                answers@,
                                *workspace,
                                pixi_environment@,
                            )(k)->Ok_0,
                            pixi_environment@,
                        )
                    }
                &&& plans@.len() == processes@.len()
                &&& forall|i: int|
                    0 <= i < plans@.len() ==> preflighted(
                        #[trigger] plans@[i],
                        processes@[i],
                        accepted.entries@,
                    )
            },
        },
{
    let machines = remote_machines(processes.as_slice());
    let ghost firsts = remote_firsts(processes@);
    let ghost told = workspace_answers(processes@, answers@, *workspace, pixi_environment@);
    let ghost f = faults_of(told);
    let count: usize = processes.len();
    proof {
        assert(processes@.len() == count);
        lemma_remote_firsts(processes@);
    }
    let mut accepted: Vec<(String, RemoteWorkspacePlan)> = Vec::new();
    let mut k: usize = 0;
    while k < machines.entries.len()
        invariant
            k <= machines.entries@.len(),
            machines.entries@ == firsts,
            firsts == remote_firsts(processes@),
            answers@.len() == firsts.len(),
            told == workspace_answers(processes@, answers@, *workspace, pixi_environment@),
            f == faults_of(told),
            first_some(k as nat, f) is None,
            accepted@.len() == k,
            forall|j: int|
                0 <= j < firsts.len() ==> {
                    let entry = #[trigger] firsts[j];
                    entry.1 < processes@.len() && processes@[entry.1 as int].machine@ == entry.0@
                        && remote_target(processes@[entry.1 as int]) is Some
                },
            forall|j: int|
                0 <= j < k ==> {
                    let entry = #[trigger] accepted@[j];
                    let first = processes@[firsts[j].1 as int];
                    entry.0 == firsts[j].0 && is_workspace(
                        entry.1,
                        remote_target(first)->0,
                        checkout_root(first),
                        told(j)->Ok_0,
                        pixi_environment@,
                    )
                },
        decreases machines.entries@.len() - k,
    {
        let (machine, at) = &machines.entries[k];
        assert(firsts[k as int] == (*machine, *at));
        let first = &processes[*at];
        let target = match &first.launch {
            LaunchPlan::Ssh { target } => target.as_str(),
            LaunchPlan::Local => "",
        };
        let root = parent_path(first.command.cwd.as_str());
        assert(f(k as int) == match told(k as int) {
            Ok(_) => None,
            Err(text) => Some(text),
        });
        match check_workspace_answer(
            first.machine.as_str(),
            target,
            root.as_str(),
            &answers[k],
            workspace,
            pixi_environment,
        ) {
            Ok(plan) => accepted.push((machine.clone(), plan)),
            Err(text) => {
                proof {
                    lemma_first_some_stays((k + 1) as nat, firsts.len(), f);
                }
                return Err(text);
            },
        }
        k += 1;
    }
    let accepted = Dict { entries: accepted };
    proof {
        assert forall|a: int, b: int| 0 <= a < b < accepted.entries@.len() implies crate::dict::text_less(
            (#[trigger] accepted.entries@[a]).0@,
            (#[trigger] accepted.entries@[b]).0@,
        ) by {
            assert(crate::dict::text_less(firsts[a].0@, firsts[b].0@));
        }
        assert(accepted.wf());
    }
    let ghost start = processes@;
    let ghost g = command_faults(start);
    let mut rest = processes;
    let mut out: Vec<ProcessPlan<'a>> = Vec::new();
    while rest.len() > 0
        invariant
            rest@.len() + out@.len() == start.len(),
            start == processes@,
            g == command_faults(start),
            first_some(out@.len(), g) is None,
            first_some(firsts.len(), f) is None,
            f == faults_of(workspace_answers(start, answers@, *workspace, pixi_environment@)),
            firsts == remote_firsts(start),
            accepted.entries@.len() == firsts.len(),
            forall|j: int|
                0 <= j < firsts.len() ==> (#[trigger] accepted.entries@[j]).0 == firsts[j].0,
            forall|j: int| 0 <= j < rest@.len() ==> (#[trigger] rest@[j]) == start[out@.len() + j],
            forall|j: int| 0 <= j < start.len() ==> (#[trigger] start[j]).command.env.wf(),
            forall|i: int|
                0 <= i < start.len() && remote_target(#[trigger] start[i]) is Some ==> lookup(
                    firsts,
                    start[i].machine@,
                ) is Some,
            forall|j: int|
                0 <= j < out@.len() ==> preflighted(
                    #[trigger] out@[j],
                    start[j],
                    accepted.entries@,
                ),
        decreases rest@.len(),
    {
        let ghost at = out@.len() as int;
        assert(rest@[0] == start[at]);
        assert(g(at) == if remote_target(start[at]) is Some && start[at].command.argv@.len() == 0 {
            Some("process "@ + debug_text(start[at].id@) + " has no executable"@)
        } else {
            None
        });
        let plan = rest.remove(0);
        match &plan.launch {
            LaunchPlan::Local => {
                out.push(plan);
            },
            LaunchPlan::Ssh { .. } => {
                if plan.command.argv.len() == 0 {
                    proof {
                        lemma_first_some_stays((at + 1) as nat, start.len(), g);
                    }
                    return Err(
                        cat3("process ", debug(plan.id.as_str()).as_str(), " has no executable"),
                    );
                }
                proof {
                    lemma_same_keys(firsts, accepted.entries@, plan.machine@);
                }
                match accepted.get(plan.machine.as_str()) {
                    Some(found) => {
                        out.push(
                            run_remotely(
                                plan,
                                Some(found.pixi_executable.as_str()),
                                found.home.as_str(),
                                found.search_path.as_str(),
                            ),
                        );
                    },
                    None => {
                        out.push(plan);
                    },
                }
            },
        }
    }
    Ok((out, accepted))
}

/// Entries with the same keys hold something for the same keys.
proof fn lemma_same_keys<A, B>(a: Seq<(String, A)>, b: Seq<(String, B)>, key: Seq<char>)
    requires
        a.len() == b.len(),
        forall|i: int| 0 <= i < a.len() ==> (#[trigger] b[i]).0 == a[i].0,
    ensures
        lookup(a, key) is Some <==> lookup(b, key) is Some,
{
    if lookup(a, key) is Some {
        let i = crate::dict::lemma_lookup_found(a, key);
        assert(b[i].0@ == key);
        if lookup(b, key) is None {
            lemma_lookup_none(b, key, i);
        }
    }
    if lookup(b, key) is Some {
        let i = crate::dict::lemma_lookup_found(b, key);
        assert(a[i].0@ == key);
        if lookup(a, key) is None {
            lemma_lookup_none(a, key, i);
        }
    }
}

proof fn lemma_lookup_none<A>(a: Seq<(String, A)>, key: Seq<char>, i: int)
    requires
        lookup(a, key) is None,
        0 <= i < a.len(),
    ensures
        a[i].0@ != key,
    decreases a.len(),
{
    if i < a.len() - 1 {
        assert(a.drop_last()[i] == a[i]);
        lemma_lookup_none(a.drop_last(), key, i);
    }
}

// ---------------------------------------------------------------------------
// Preflight of containers

/// What a machine reports of a container launch.
#[derive(Debug)]
pub struct RemoteContainerFacts {
    pub target: String,
    pub user: String,
    pub uid: u32,
    pub gid: u32,
    pub present_pass_env: Vec<String>,
    pub home: String,
    pub search_path: String,
}

/// The lines that look for the variables to pass through.
pub open spec fn env_probe_text(names: Seq<Seq<char>>) -> Seq<char>
    decreases names.len(),
{
    if names.len() == 0 {
        Seq::empty()
    } else {
        let name = names[names.len() - 1];
        env_probe_text(names.drop_last()) + ("if [ -n \"${"@ + name
            + "+x}\" ]; then set_env=\"$set_env "@ + name + "\"; fi; "@)
    }
}

/// The script of a container preflight.
pub open spec fn container_script_text(reference: Seq<char>, pass_env: Seq<Seq<char>>) -> Seq<char> {
    "set -eu; present=1; docker image inspect --format '{{.Id}}' "@ + quoted(reference)
        + " >/dev/null 2>&1 || present=0; set_env=\"\"; "@ + env_probe_text(pass_env)
        + "printf 'INFERLAB_CONTAINER_PREFLIGHT\\t%s\\t%s\\t%s\\t%s\\t%s\\t%s\\t%s\\n' \"$present\" \"$(id -u)\" \"$(id -g)\" \"$(id -un)\" \"$PATH\" \"$HOME\" \"$set_env\""@
}

/// The script of a container preflight: one read-only probe of the image, the
/// user and the variables that the machine holds.
pub fn container_script(reference: &str, pass_env: &[String]) -> (r: String)
    ensures
        r@ == container_script_text(reference@, texts(pass_env@)),
{
    let ghost all = texts(pass_env@);
    let mut probe = String::new();
    let mut i: usize = 0;
    assert(all.take(0) =~= Seq::<Seq<char>>::empty());
    assert(probe@ =~= env_probe_text(all.take(0)));
    while i < pass_env.len()
        invariant
            i <= pass_env@.len(),
            all == texts(pass_env@),
            probe@ == env_probe_text(all.take(i as int)),
        decreases pass_env@.len() - i,
    {
        let name = pass_env[i].as_str();
        let line = cat5(
            "if [ -n \"${",
            name,
            "+x}\" ]; then set_env=\"$set_env ",
            name,
            "\"; fi; ",
        );
        probe.append(line.as_str());
        proof {
            assert(all.take(i + 1).drop_last() =~= all.take(i as int));
            assert(all.take(i + 1)[i as int] == name@);
        }
        i += 1;
    }
    assert(all.take(pass_env@.len() as int) =~= all);
    cat5(
        "set -eu; present=1; docker image inspect --format '{{.Id}}' ",
        shell_quote(reference).as_str(),
        " >/dev/null 2>&1 || present=0; set_env=\"\"; ",
        probe.as_str(),
        "printf 'INFERLAB_CONTAINER_PREFLIGHT\\t%s\\t%s\\t%s\\t%s\\t%s\\t%s\\t%s\\n' \"$present\" \"$(id -u)\" \"$(id -g)\" \"$(id -un)\" \"$PATH\" \"$HOME\" \"$set_env\"",
    )
}

/// The fields of a machine's report on a container launch, or why it is refused.
pub open spec fn container_answer(
    machine: Seq<char>,
    target: Seq<char>,
    external_id: Seq<char>,
    reference: Seq<char>,
    answer: Result<CommandOutput, String>,
) -> Result<Seq<Seq<char>>, Seq<char>> {
    match answer {
        Err(source) => Err("failed to probe machine "@ + debug_text(machine) + ": "@ + source@),
        Ok(output) => if !valid_utf8(output.stdout@) {
            Err(
                machine_text(machine, target)
                    + " returned non-UTF-8 container preflight output: "@ + utf8_error(
                    output.stdout@,
                ),
            )
        } else {
            match last_marked(
                text_lines(decode_utf8(output.stdout@)),
                CONTAINER_PREFLIGHT_MARKER@,
            ) {
                None => Err(
                    no_evidence_text(machine, target, "container preflight"@, output),
                ),
                Some(payload) => {
                    let fields = split_on(payload, '\t');
                    if fields.len() < 7 || parsed_unsigned(fields[1], u32::MAX as nat) is None
                        || parsed_unsigned(fields[2], u32::MAX as nat) is None {
                        Err(
                            machine_text(machine, target)
                                + " returned malformed container preflight evidence: "@
                                + debug_text(payload),
                        )
                    } else if fields[0] != "1"@ {
                        Err(
                            machine_text(machine, target) + " does not hold external image "@
                                + debug_text(external_id) + (" ("@ + reference
                                + "); run on that machine: docker pull "@ + reference),
                        )
                    } else {
                        Ok(fields)
                    }
                },
            }
        },
    }
}

/// Whether facts are what a machine reported.
pub open spec fn are_facts(facts: RemoteContainerFacts, target: Seq<char>, fields: Seq<Seq<char>>) -> bool {
    &&& facts.target@ == target
    &&& parsed_unsigned(fields[1], u32::MAX as nat) == Some(facts.uid as nat)
    &&& parsed_unsigned(fields[2], u32::MAX as nat) == Some(facts.gid as nat)
    &&& facts.user@ == fields[3]
    &&& facts.search_path@ == fields[4]
    &&& facts.home@ == fields[5]
    &&& texts(facts.present_pass_env@) == words_of(fields[6])
}

/// Accepts the answer of a machine: the image must be there. A missing image is
/// that machine's operator's to pull.
pub fn check_container_answer(
    machine: &str,
    target: &str,
    external_id: &str,
    reference: &str,
    answer: &Result<CommandOutput, String>,
) -> (r: Result<RemoteContainerFacts, String>)
    ensures
        match container_answer(machine@, target@, external_id@, reference@, *answer) {
            Err(text) => r matches Err(found) && found@ == text,
            Ok(fields) => r matches Ok(facts) && are_facts(facts, target@, fields),
        },
{
    let output = match answer {
        Ok(output) => output,
        Err(source) => return Err(
            cat4("failed to probe machine ", debug(machine).as_str(), ": ", source.as_str()),
        ),
    };
    let who = name_machine(machine, target);
    let stdout = match decode_bytes(slice_to_vec(output.stdout.as_slice())) {
        Ok(stdout) => stdout,
        Err(source) => return Err(
            cat3(
                who.as_str(),
                " returned non-UTF-8 container preflight output: ",
                source.as_str(),
            ),
        ),
    };
    let payload = match find_last_marked(stdout.as_str(), CONTAINER_PREFLIGHT_MARKER) {
        Some(payload) => payload,
        None => return Err(
            cat7(
                who.as_str(),
                " exited with ",
                output.status.as_str(),
                " before returning ",
                "container preflight",
                " evidence: ",
                trim(decode_lossy(output.stderr.as_slice()).as_str()),
            ),
        ),
    };
    let fields = split(payload.as_str(), '\t');
    let ghost all = split_on(payload@, '\t');
    assert(texts(fields@).len() == fields@.len());
    let malformed = cat3(
        who.as_str(),
        " returned malformed container preflight evidence: ",
        debug(payload.as_str()).as_str(),
    );
    if fields.len() < 7 {
        return Err(malformed);
    }
    assert(forall|i: int| 0 <= i < 7 ==> all[i] == (#[trigger] fields@[i])@);
    let uid: u32 = match parse_unsigned(fields[1].as_str(), u32::MAX as u64) {
        Some(uid) => uid as u32,
        None => return Err(malformed),
    };
    let gid: u32 = match parse_unsigned(fields[2].as_str(), u32::MAX as u64) {
        Some(gid) => gid as u32,
        None => return Err(malformed),
    };
    if !same(fields[0].as_str(), "1") {
        let repair = cat4(" (", reference, "); run on that machine: docker pull ", reference);
        return Err(
            cat4(
                who.as_str(),
                " does not hold external image ",
                debug(external_id).as_str(),
                repair.as_str(),
            ),
        );
    }
    Ok(
        RemoteContainerFacts {
            target: target.to_owned(),
            user: fields[3].clone(),
            uid,
            gid,
            present_pass_env: words(fields[6].as_str()),
            home: fields[5].clone(),
            search_path: fields[4].clone(),
        },
    )
}

/// What the answers of the machines come to, by place among the machines.
pub open spec fn container_answers(
    processes: Seq<ProcessPlan>,
    answers: Seq<Result<CommandOutput, String>>,
    external_id: Seq<char>,
    reference: Seq<char>,
) -> spec_fn(int) -> Result<Seq<Seq<char>>, Seq<char>> {
    |k: int|
        {
            let first = processes[remote_firsts(processes)[k].1 as int];
            container_answer(
                first.machine@,
                remote_target(first)->0,
                external_id,
                reference,
                answers[k],
            )
        }
}

/// Whether a process is what the container preflight made of it: the docker
/// client runs with the machine's own variables.
pub open spec fn container_preflighted(
    plan: ProcessPlan,
    before: ProcessPlan,
    facts: Seq<(String, RemoteContainerFacts)>,
) -> bool {
    match remote_target(before) {
        None => plan == before,
        Some(_) => lookup(facts, before.machine@) matches Some(found) && runs_remotely(
            plan,
            before,
            None,
            found.home@,
            found.search_path@,
        ),
    }
}

/// Checks the answers of the remote machines and gives their processes the
/// machines' own variables.
pub fn preflight_container_targets<'a>(
    processes: Vec<ProcessPlan<'a>>,
    answers: &[Result<CommandOutput, String>],
    external_id: &str,
    reference: &str,
) -> (r: Result<(Vec<ProcessPlan<'a>>, Dict<RemoteContainerFacts>), String>)
    requires
        answers@.len() == remote_firsts(processes@).len(),
        forall|i: int| 0 <= i < processes@.len() ==> (#[trigger] processes@[i]).command.env.wf(),
    ensures
        match first_some(
            remote_firsts(processes@).len(),
            faults_of(container_answers(processes@, answers@, external_id@, reference@)),
        ) {
            Some(text) => r matches Err(found) && found@ == text,
            None => r matches Ok((plans, facts)) && {
                let firsts = remote_firsts(processes@);
                &&& facts.wf()
                &&& facts.entries@.len() == firsts.len()
                &&& forall|k: int|
                    0 <= k < firsts.len() ==> {
                        let entry = #[trigger] facts.entries@[k];
                        entry.0 == firsts[k].0 && are_facts(
                            entry.1,
                            remote_target(processes@[firsts[k].1 as int])->0,
                            container_answers(
                                processes@,
                                answers@,
                                external_id@,
                                reference@,
                            )(k)->Ok_0,
                        )
                    }
                &&& plans@.len() == processes@.len()
                &&& forall|i: int|
                    0 <= i < plans@.len() ==> container_preflighted(
                        #[trigger] plans@[i],
                        processes@[i],
                        facts.entries@,
                    )
            },
        },
{
    let machines = remote_machines(processes.as_slice());
    let ghost firsts = remote_firsts(processes@);
    let ghost told = container_answers(processes@, answers@, external_id@, reference@);
    let ghost f = faults_of(told);
    let count: usize = processes.len();
    proof {
        assert(processes@.len() == count);
        lemma_remote_firsts(processes@);
    }
    let mut facts: Vec<(String, RemoteContainerFacts)> = Vec::new();
    let mut k: usize = 0;
    while k < machines.entries.len()
        invariant
            k <= machines.entries@.len(),
            machines.entries@ == firsts,
            firsts == remote_firsts(processes@),
            answers@.len() == firsts.len(),
            told == container_answers(processes@, answers@, external_id@, reference@),
            f == faults_of(told),
            first_some(k as nat, f) is None,
            facts@.len() == k,
            forall|j: int|
                0 <= j < firsts.len() ==> {
                    let entry = #[trigger] firsts[j];
                    entry.1 < processes@.len() && processes@[entry.1 as int].machine@ == entry.0@
                        && remote_target(processes@[entry.1 as int]) is Some
                },
            forall|j: int|
                0 <= j < k ==> {
                    let entry = #[trigger] facts@[j];
                    entry.0 == firsts[j].0 && are_facts(
                        entry.1,
                        remote_target(processes@[firsts[j].1 as int])->0,
                        told(j)->Ok_0,
                    )
                },
        decreases machines.entries@.len() - k,
    {
        let (machine, at) = &machines.entries[k];
        assert(firsts[k as int] == (*machine, *at));
        let first = &processes[*at];
        let target = match &first.launch {
            LaunchPlan::Ssh { target } => target.as_str(),
            LaunchPlan::Local => "",
        };
        assert(f(k as int) == match told(k as int) {
            Ok(_) => None,
            Err(text) => Some(text),
        });
        match check_container_answer(
            first.machine.as_str(),
            target,
            external_id,
            reference,
            &answers[k],
        ) {
            Ok(found) => facts.push((machine.clone(), found)),
            Err(text) => {
                proof {
                    lemma_first_some_stays((k + 1) as nat, firsts.len(), f);
                }
                return Err(text);
            },
        }
        k += 1;
    }
    let facts = Dict { entries: facts };
    proof {
        assert forall|a: int, b: int| 0 <= a < b < facts.entries@.len() implies crate::dict::text_less(
            (#[trigger] facts.entries@[a]).0@,
            (#[trigger] facts.entries@[b]).0@,
        ) by {
            assert(crate::dict::text_less(firsts[a].0@, firsts[b].0@));
        }
        assert(facts.wf());
    }
    let ghost start = processes@;
    let mut rest = processes;
    let mut out: Vec<ProcessPlan<'a>> = Vec::new();
    while rest.len() > 0
        invariant
            rest@.len() + out@.len() == start.len(),
            start == processes@,
            firsts == remote_firsts(start),
            facts.entries@.len() == firsts.len(),
            forall|j: int|
                0 <= j < firsts.len() ==> (#[trigger] facts.entries@[j]).0 == firsts[j].0,
            forall|j: int| 0 <= j < rest@.len() ==> (#[trigger] rest@[j]) == start[out@.len() + j],
            forall|j: int| 0 <= j < start.len() ==> (#[trigger] start[j]).command.env.wf(),
            forall|i: int|
                0 <= i < start.len() && remote_target(#[trigger] start[i]) is Some ==> lookup(
                    firsts,
                    start[i].machine@,
                ) is Some,
            forall|j: int|
                0 <= j < out@.len() ==> container_preflighted(
                    #[trigger] out@[j],
                    start[j],
                    facts.entries@,
                ),
        decreases rest@.len(),
    {
        let ghost at = out@.len() as int;
        assert(rest@[0] == start[at]);
        let plan = rest.remove(0);
        match &plan.launch {
            LaunchPlan::Local => {
                out.push(plan);
            },
            LaunchPlan::Ssh { .. } => {
                proof {
                    lemma_same_keys(firsts, facts.entries@, plan.machine@);
                }
                match facts.get(plan.machine.as_str()) {
                    Some(found) => {
                        out.push(
                            run_remotely(
                                plan,
                                None,
                                found.home.as_str(),
                                found.search_path.as_str(),
                            ),
                        );
                    },
                    None => {
                        out.push(plan);
                    },
                }
            },
        }
    }
    Ok((out, facts))
}

/// A machine whose preflight is accepted has the controller's workspace: the same
/// revision, the same sources, the same manifest and lock, and it has the locked
/// environment.
pub proof fn law_accepted_machine_has_the_workspace(
    machine: Seq<char>,
    target: Seq<char>,
    root: Seq<char>,
    answer: Result<CommandOutput, String>,
    workspace: WorkspaceSnapshot,
    environment: Seq<char>,
    plan: RemoteWorkspacePlan,
)
    requires
        workspace_answer(machine, target, root, answer, workspace, environment) is Ok,
        is_workspace(
            plan,
            target,
            root,
            workspace_answer(machine, target, root, answer, workspace, environment)->Ok_0,
            environment,
        ),
    ensures
        plan.revision@ == workspace.revision@,
        plan.dirty == workspace.dirty,
        plan.source_digest@ == workspace.source_digest@,
        plan.pixi_manifest_sha256@ == workspace.pixi_manifest_sha256@,
        plan.pixi_lock_sha256@ == workspace.pixi_lock_sha256@,
        plan.pixi_environment@ == environment,
        parsed_signed(
            workspace_answer(machine, target, root, answer, workspace, environment)->Ok_0[8],
        ) == Some(0int),
{
}

/// A process on another machine runs there with what that machine reported of itself: its
/// own search path and home, and its own program in front of the words that were planned.
/// A local process stays as it was.
pub proof fn law_remote_process_runs_with_its_machine(
    plan: ProcessPlan,
    before: ProcessPlan,
    accepted: Seq<(String, RemoteWorkspacePlan)>,
    key: Seq<char>,
    k: int,
)
    requires
        preflighted(plan, before, accepted),
    ensures
        before.launch is Local ==> plan == before,
        before.launch is Ssh ==> (lookup(accepted, before.machine@) matches Some(workspace) && {
            &&& plan.command.env.text_at("PATH"@) == Some(workspace.search_path@)
            &&& plan.command.env.text_at("HOME"@) == Some(workspace.home@)
            &&& key != "PATH"@ && key != "HOME"@ ==> plan.command.env.text_at(key)
                == before.command.env.text_at(key)
            &&& before.command.argv@.len() > 0 ==> plan.command.argv@.len()
                == before.command.argv@.len() && plan.command.argv@[0]@
                == workspace.pixi_executable@
            &&& 0 < k < before.command.argv@.len() ==> plan.command.argv@[k]@
                == before.command.argv@[k]@
            &&& plan.id == before.id && plan.machine == before.machine && plan.launch
                == before.launch && plan.endpoint == before.endpoint && plan.command.cwd
                == before.command.cwd
        }),
{
    reveal_strlit("PATH");
    reveal_strlit("HOME");
    assert("PATH"@[0] != "HOME"@[0]);
    if before.launch is Ssh {
        let workspace = lookup(accepted, before.machine@)->0;
        let words = texts(before.command.argv@);
        let run = texts(plan.command.argv@);
        assert(run == words.update(0, workspace.pixi_executable@));
        assert(run.len() == plan.command.argv@.len() && words.len() == before.command.argv@.len());
        if words.len() > 0 {
            assert(run.len() == words.len());
            assert(run[0] == plan.command.argv@[0]@);
        }
        if 0 < k < words.len() {
            assert(run[k] == plan.command.argv@[k]@);
            assert(words[k] == before.command.argv@[k]@);
        }
    }
}

/// A process that is run in a container on another machine keeps its words, and has the
/// search path and home of that machine.
pub proof fn law_container_runs_with_its_machine(
    plan: ProcessPlan,
    before: ProcessPlan,
    facts: Seq<(String, RemoteContainerFacts)>,
)
    requires
        container_preflighted(plan, before, facts),
    ensures
        before.launch is Local ==> plan == before,
        before.launch is Ssh ==> (lookup(facts, before.machine@) matches Some(found)
            && plan.command.env.text_at("PATH"@) == Some(found.search_path@)
            && plan.command.env.text_at("HOME"@) == Some(found.home@) && plan.command.argv
            == before.command.argv && plan.id == before.id && plan.machine == before.machine),
{
    reveal_strlit("PATH");
    reveal_strlit("HOME");
    assert("PATH"@[0] != "HOME"@[0]);
}

/// A machine is accepted exactly where it could be asked, its report can be read, its
/// workspace is the controller's and its environment is there.
pub proof fn law_machine_is_accepted_with_the_workspace(
    machine: Seq<char>,
    target: Seq<char>,
    root: Seq<char>,
    answer: Result<CommandOutput, String>,
    workspace: WorkspaceSnapshot,
    environment: Seq<char>,
)
    ensures
        workspace_answer(machine, target, root, answer, workspace, environment) is Ok <==> (
        answer matches Ok(output) && valid_utf8(output.stdout@) && (report_fields(
            decode_utf8(output.stdout@),
        ) matches Some(fields) && {
            &&& fields[0] == workspace.revision@
            &&& (fields[1] == "1"@) == workspace.dirty
            &&& fields[2] == workspace.source_digest@
            &&& fields[3] == workspace.pixi_manifest_sha256@
            &&& fields[4] == workspace.pixi_lock_sha256@
            &&& parsed_signed(fields[8]) == Some(0int)
        })),
{
}

/// The workspace of an accepted machine is that of its target and root, with the program,
/// the search path and the home that the machine reported, in this order.
pub proof fn law_workspace_is_what_the_machine_reported(
    plan: RemoteWorkspacePlan,
    target: Seq<char>,
    root: Seq<char>,
    fields: Seq<Seq<char>>,
    environment: Seq<char>,
)
    requires
        is_workspace(plan, target, root, fields, environment),
    ensures
        plan.target@ == target,
        plan.path@ == root,
        plan.pixi_environment@ == environment,
        plan.pixi_executable@ == fields[5],
        plan.search_path@ == fields[6],
        plan.home@ == fields[7],
{
}

/// A machine can run a container only where it holds the image; its facts are then the
/// user and group, the name, the search path and the home that it reported, in this
/// order.
pub proof fn law_container_needs_its_image(
    machine: Seq<char>,
    target: Seq<char>,
    external_id: Seq<char>,
    reference: Seq<char>,
    answer: Result<CommandOutput, String>,
    facts: RemoteContainerFacts,
    uid: u32,
    gid: u32,
)
    requires
        container_answer(machine, target, external_id, reference, answer) matches Ok(fields)
            && are_facts(facts, target, fields) && fields[1] == crate::text::decimal(uid as nat)
            && fields[2] == crate::text::decimal(gid as nat),
    ensures
        ({
            let fields = container_answer(machine, target, external_id, reference, answer)->Ok_0;
            &&& fields[0] == "1"@
            &&& facts.target@ == target
            &&& facts.uid == uid
            &&& facts.gid == gid
            &&& facts.user@ == fields[3]
            &&& facts.search_path@ == fields[4]
            &&& facts.home@ == fields[5]
        }),
{
    crate::text::law_decimal_is_parsed_back(uid as nat, u32::MAX as nat);
    crate::text::law_decimal_is_parsed_back(gid as nat, u32::MAX as nat);
}

/// Each other machine is asked once, for the first process on it.
pub proof fn law_each_remote_machine_is_asked_once(processes: Seq<ProcessPlan>, name: Seq<char>)
    requires
        processes.len() <= usize::MAX,
    ensures
        crate::dict::in_order(remote_firsts(processes)),
        lookup(remote_firsts(processes), name) is Some <==> exists|i: int|
            0 <= i < processes.len() && (#[trigger] processes[i]).launch is Ssh
                && processes[i].machine@ == name,
        lookup(remote_firsts(processes), name) matches Some(at) ==> {
            &&& at < processes.len()
            &&& processes[at as int].launch is Ssh
            &&& processes[at as int].machine@ == name
            &&& forall|j: int|
                0 <= j < at ==> !((#[trigger] processes[j]).launch is Ssh && processes[j].machine@
                    == name)
        },
    decreases processes.len(),
{
    if processes.len() > 0 {
        let fewer = processes.drop_last();
        let last = processes[processes.len() - 1];
        let before = remote_firsts(fewer);
        law_each_remote_machine_is_asked_once(fewer, name);
        law_each_remote_machine_is_asked_once(fewer, last.machine@);
        assert forall|i: int| 0 <= i < fewer.len() implies (#[trigger] fewer[i]) == processes[i] by {
        }
        if exists|i: int|
            0 <= i < fewer.len() && (#[trigger] fewer[i]).launch is Ssh && fewer[i].machine@
                == name {
            let i = choose|i: int|
                0 <= i < fewer.len() && (#[trigger] fewer[i]).launch is Ssh && fewer[i].machine@
                    == name;
            assert(processes[i].launch is Ssh && processes[i].machine@ == name);
        }
        if remote_target(last) is Some && lookup(before, last.machine@) is None {
            let at = (processes.len() - 1) as usize;
            crate::dict::lemma_with_entry_in_order(before, last.machine, at);
            crate::dict::lemma_with_entry_lookup(before, last.machine, at, name);
            if name == last.machine@ {
                assert(processes[at as int].launch is Ssh);
                assert forall|j: int| 0 <= j < at implies !((#[trigger] processes[j]).launch is Ssh
                    && processes[j].machine@ == name) by {
                    assert(fewer[j] == processes[j]);
                }
            }
        }
        if exists|i: int|
            0 <= i < processes.len() && (#[trigger] processes[i]).launch is Ssh
                && processes[i].machine@ == name {
            let i = choose|i: int|
                0 <= i < processes.len() && (#[trigger] processes[i]).launch is Ssh
                    && processes[i].machine@ == name;
            if i < fewer.len() {
                assert(fewer[i].launch is Ssh);
            }
        }
        if lookup(remote_firsts(processes), name) is Some && lookup(before, name) is Some {
            let at = lookup(before, name)->0;
            assert(fewer[at as int] == processes[at as int]);
            assert forall|j: int| 0 <= j < at implies !((#[trigger] processes[j]).launch is Ssh
                && processes[j].machine@ == name) by {
                assert(fewer[j] == processes[j]);
            }
        }
    }
}

/// The preflight passes only where the answer of every machine is accepted and every
/// remote process has a command.
pub proof fn law_preflight_passes_with_every_machine(
    processes: Seq<ProcessPlan>,
    answers: Seq<Result<CommandOutput, String>>,
    workspace: WorkspaceSnapshot,
    environment: Seq<char>,
    k: int,
    i: int,
)
    requires
        preflight_fault(processes, answers, workspace, environment) is None,
        0 <= k < remote_firsts(processes).len(),
        0 <= i < processes.len(),
    ensures
        workspace_answers(processes, answers, workspace, environment)(k) is Ok,
        remote_target(processes[i]) is Some ==> processes[i].command.argv@.len() > 0,
{
    let told = workspace_answers(processes, answers, workspace, environment);
    let f = faults_of(told);
    crate::search::lemma_first_some_none(remote_firsts(processes).len(), f);
    assert(f(k) is None);
    let g = command_faults(processes);
    crate::search::lemma_first_some_none(processes.len(), g);
    assert(g(i) is None);
}

} // verus!
