//! Launching processes: the scripts that start them on other machines, what the
//! scripts report, and what is left of a launch that failed.

use crate::paths::{join_path, joined_path, parent, parent_of};
use crate::process_group::CommandOutput;
use crate::resolve::integration::LaunchFilePlan;
use crate::resolve::realization::CommandPlan;
use crate::search::{first_some, lemma_first_some_stays};
use crate::server::cleanup::{
    cleanup_error, complete_cleanup, completed_cleanup, failed_cleanup, removal_fits, removal_of,
    removal_summary, removal_words, signals_of, CleanupEvidence, CleanupTrigger, CleanupView,
    ContainerRemovalEvidence, RemovalView, KILL_POLL_LIMIT, REMOTE_SERVER_CLEANUP_DEADLINE,
    TERM_POLL_LIMIT,
};
use crate::process_group::SignalEvidence;
use crate::server::handle::{
    checked, group_alive, identity_fault, remote_group_alive_script, SshProcessHandle,
};
use crate::shell::{
    law_quoted_text_is_read_back, quoted, shell_quote, shell_quote_path, shell_word, Reading,
};
use crate::text::{
    cat2, cat3, cat4, cat5, cat6, copy_text, debug, debug_text, decimal, decode_bytes, decode_lossy, find_char,
    find_last_marked, join, joined, last_marked, lossy_text, number_error, optional_text, parse_u32,
    parse_u64, parsed_unsigned, position, small_number_error, text_lines, text_of, texts,
    to_decimal_wide, trim, trimmed, utf8_error,
};
use crate::time_bound::{duration_ms, millis};
use vstd::prelude::*;
use vstd::slice::slice_to_vec;
use vstd::string::*;
use vstd::utf8::*;

verus! {

/// What marks the identity of a process that was launched on another machine.
pub const HANDLE_MARKER: &'static str = "INFERLAB_HANDLE\t";

/// A launch that failed.
#[derive(Debug)]
pub struct LaunchFailure {
    pub message: String,
    /// Something of the launch may still be running.
    pub ownership_unknown: bool,
    /// What came of removing the container that the launch may have made.
    pub container_removal: Option<ContainerRemovalEvidence>,
    pub cleanup: Option<CleanupEvidence>,
}

/// A launch that failed, as values.
#[verifier::ext_equal]
pub struct LaunchFailureView {
    pub message: Seq<char>,
    pub ownership_unknown: bool,
    pub container_removal: Option<RemovalView>,
    pub cleanup: Option<CleanupView>,
}

/// What came of a cleanup, where there was one.
pub open spec fn cleanup_of(cleanup: Option<CleanupEvidence>) -> Option<CleanupView> {
    match cleanup {
        Some(found) => Some(found@),
        None => None,
    }
}

impl View for LaunchFailure {
    type V = LaunchFailureView;

    open spec fn view(&self) -> LaunchFailureView {
        LaunchFailureView {
            message: self.message@,
            ownership_unknown: self.ownership_unknown,
            container_removal: removal_of(self.container_removal),
            cleanup: cleanup_of(self.cleanup),
        }
    }
}

/// A launch that failed before anything was started.
pub open spec fn failed_before(message: Seq<char>) -> LaunchFailureView {
    LaunchFailureView {
        message,
        ownership_unknown: false,
        container_removal: None,
        cleanup: None,
    }
}

impl LaunchFailure {
    /// A launch that failed before anything was started.
    pub fn before_launch(message: String) -> (r: Self)
        ensures
            r@ == failed_before(message@),
    {
        LaunchFailure {
            message,
            ownership_unknown: false,
            container_removal: None,
            cleanup: None,
        }
    }

    /// A launch of which something may still be running.
    pub fn ownership_unknown(message: String) -> (r: Self)
        ensures
            r@ == (LaunchFailureView { ownership_unknown: true, ..failed_before(message@) }),
    {
        LaunchFailure { message, ownership_unknown: true, container_removal: None, cleanup: None }
    }
}

// ---------------------------------------------------------------------------
// Commands

/// The variables of a command, as quoted words.
pub open spec fn env_words(entries: Seq<(String, String)>) -> Seq<Seq<char>> {
    Seq::new(entries.len(), |i: int| quoted(entries[i].0@ + "="@ + entries[i].1@))
}

/// The variables that a command takes from its machine, as references that the
/// shell there resolves.
pub open spec fn reference_words(names: Seq<Seq<char>>) -> Seq<Seq<char>> {
    Seq::new(names.len(), |i: int| names[i] + "=\"${"@ + names[i] + "}\""@)
}

/// The words of a command, quoted.
pub open spec fn quoted_words(words: Seq<Seq<char>>) -> Seq<Seq<char>> {
    Seq::new(words.len(), |i: int| quoted(words[i]))
}

/// A command with nothing but its own variables, as shell text.
pub open spec fn env_command(command: CommandPlan) -> Seq<char> {
    joined(
        seq!["env"@, "-i"@] + env_words(command.env.entries@) + reference_words(
            texts(command.pass_env@),
        ) + quoted_words(texts(command.argv@)),
        " "@,
    )
}

/// A command with nothing but its own variables, as shell text. What it takes from
/// its machine stands there as references only.
pub fn render_env_command(command: &CommandPlan) -> (r: Result<String, String>)
    ensures
        if command.argv@.len() == 0 {
            r matches Err(found) && found@ == "resolved server command is empty"@
        } else {
            r matches Ok(text) && text@ == env_command(*command)
        },
{
    if command.argv.len() == 0 {
        return Err("resolved server command is empty".to_owned());
    }
    let mut parts: Vec<String> = Vec::new();
    parts.push("env".to_owned());
    parts.push("-i".to_owned());
    let ghost head = seq!["env"@, "-i"@];
    let ghost set = env_words(command.env.entries@);
    let ghost passed = reference_words(texts(command.pass_env@));
    let ghost run = quoted_words(texts(command.argv@));
    assert(texts(parts@) =~= head + set.take(0));
    let mut i: usize = 0;
    while i < command.env.entries.len()
        invariant
            i <= command.env.entries@.len(),
            set == env_words(command.env.entries@),
            texts(parts@) == head + set.take(i as int),
        decreases command.env.entries@.len() - i,
    {
        let word = shell_quote(
            cat3(
                command.env.entries[i].0.as_str(),
                "=",
                command.env.entries[i].1.as_str(),
            ).as_str(),
        );
        let ghost before = texts(parts@);
        parts.push(word);
        proof {
            assert(texts(parts@) =~= before.push(word@));
            assert(set.take(i + 1) =~= set.take(i as int).push(set[i as int]));
            assert(texts(parts@) =~= head + set.take(i + 1));
        }
        i += 1;
    }
    assert(set.take(i as int) =~= set);
    assert(texts(parts@) =~= head + set + passed.take(0));
    let mut i: usize = 0;
    while i < command.pass_env.len()
        invariant
            i <= command.pass_env@.len(),
            passed == reference_words(texts(command.pass_env@)),
            texts(parts@) == head + set + passed.take(i as int),
        decreases command.pass_env@.len() - i,
    {
        let name = command.pass_env[i].as_str();
        let word = cat4(name, "=\"${", name, "}\"");
        let ghost before = texts(parts@);
        parts.push(word);
        proof {
            assert(texts(command.pass_env@)[i as int] == command.pass_env@[i as int]@);
            assert(texts(parts@) =~= before.push(word@));
            assert(passed.take(i + 1) =~= passed.take(i as int).push(passed[i as int]));
            assert(texts(parts@) =~= head + set + passed.take(i + 1));
        }
        i += 1;
    }
    assert(passed.take(i as int) =~= passed);
    assert(texts(parts@) =~= head + set + passed + run.take(0));
    let mut i: usize = 0;
    while i < command.argv.len()
        invariant
            i <= command.argv@.len(),
            run == quoted_words(texts(command.argv@)),
            texts(parts@) == head + set + passed + run.take(i as int),
        decreases command.argv@.len() - i,
    {
        let word = shell_quote(command.argv[i].as_str());
        let ghost before = texts(parts@);
        parts.push(word);
        proof {
            assert(texts(command.argv@)[i as int] == command.argv@[i as int]@);
            assert(texts(parts@) =~= before.push(word@));
            assert(run.take(i + 1) =~= run.take(i as int).push(run[i as int]));
            assert(texts(parts@) =~= head + set + passed + run.take(i + 1));
        }
        i += 1;
    }
    assert(run.take(i as int) =~= run);
    Ok(join(parts.as_slice(), " "))
}

// ---------------------------------------------------------------------------
// Launch files

/// The parts of the script that writes a launch file on another machine.
pub open spec fn launch_file_script(file: LaunchFilePlan, folder: Seq<char>) -> Seq<Seq<char>> {
    seq![
        "# INFERLAB_LAUNCH_FILE\nset -eu\numask 077\nparent="@,
        quoted(folder),
        "\ntarget="@,
        quoted(file.resolved_path@),
        "\ndigest="@,
        quoted(file.sha256@),
        "\nmkdir -p -- \"$parent\"\nstage=$(mktemp \"$parent/.inferlab-launch.XXXXXX\")\ntrap 'rm -f -- \"$stage\"' EXIT\ncat > \"$stage\"\nactual=$(sha256sum -- \"$stage\" | awk '{print $1}')\nif [ \"$actual\" != \"$digest\" ]; then printf 'staged launch file digest mismatch for %s: expected %s, found %s\\n' \"$target\" \"$digest\" \"$actual\" >&2; exit 1; fi\nchmod 0444 -- \"$stage\"\nif ln -T -- \"$stage\" \"$target\" 2>/dev/null; then exit 0; fi\nif [ ! -f \"$target\" ] || [ -L \"$target\" ]; then printf 'existing launch file target %s is not a regular file\\n' \"$target\" >&2; exit 1; fi\nactual=$(sha256sum -- \"$target\" | awk '{print $1}')\nif [ \"$actual\" != \"$digest\" ]; then printf 'existing launch file %s does not match declared digest %s; found %s\\n' \"$target\" \"$digest\" \"$actual\" >&2; exit 1; fi"@,
    ]
}

/// Why a launch file has no place to stand.
pub open spec fn no_folder(path: Seq<char>) -> Seq<char> {
    "launch file target "@ + path + " has no parent directory"@
}

/// The directory of a launch file.
pub fn launch_file_folder(file: &LaunchFilePlan) -> (r: Result<String, String>)
    ensures
        match parent_of(file.resolved_path@) {
            None => r matches Err(found) && found@ == no_folder(file.resolved_path@),
            Some(folder) => r matches Ok(found) && found@ == folder,
        },
{
    match parent(file.resolved_path.as_str()) {
        Some(folder) => Ok(folder),
        None => Err(
            cat3("launch file target ", file.resolved_path.as_str(), " has no parent directory"),
        ),
    }
}

/// The script that writes a launch file on another machine: it takes the text from
/// its input, holds it to the digest, and accepts a file that is already there
/// only where it has the same one.
pub fn remote_launch_file_script(file: &LaunchFilePlan) -> (r: Result<String, String>)
    ensures
        match parent_of(file.resolved_path@) {
            None => r matches Err(found) && found@ == no_folder(file.resolved_path@),
            Some(folder) => r matches Ok(text) && text@ == joined(
                launch_file_script(*file, folder),
                ""@,
            ),
        },
{
    let folder = match launch_file_folder(file) {
        Ok(folder) => folder,
        Err(error) => return Err(error),
    };
    let parts: Vec<String> = vec![
        "# INFERLAB_LAUNCH_FILE\nset -eu\numask 077\nparent=".to_owned(),
        shell_quote_path(folder.as_str()),
        "\ntarget=".to_owned(),
        shell_quote_path(file.resolved_path.as_str()),
        "\ndigest=".to_owned(),
        shell_quote(file.sha256.as_str()),
        "\nmkdir -p -- \"$parent\"\nstage=$(mktemp \"$parent/.inferlab-launch.XXXXXX\")\ntrap 'rm -f -- \"$stage\"' EXIT\ncat > \"$stage\"\nactual=$(sha256sum -- \"$stage\" | awk '{print $1}')\nif [ \"$actual\" != \"$digest\" ]; then printf 'staged launch file digest mismatch for %s: expected %s, found %s\\n' \"$target\" \"$digest\" \"$actual\" >&2; exit 1; fi\nchmod 0444 -- \"$stage\"\nif ln -T -- \"$stage\" \"$target\" 2>/dev/null; then exit 0; fi\nif [ ! -f \"$target\" ] || [ -L \"$target\" ]; then printf 'existing launch file target %s is not a regular file\\n' \"$target\" >&2; exit 1; fi\nactual=$(sha256sum -- \"$target\" | awk '{print $1}')\nif [ \"$actual\" != \"$digest\" ]; then printf 'existing launch file %s does not match declared digest %s; found %s\\n' \"$target\" \"$digest\" \"$actual\" >&2; exit 1; fi".to_owned(),
    ];
    assert(texts(parts@) =~= launch_file_script(*file, folder@));
    Ok(join(parts.as_slice(), ""))
}

/// What is wrong with the answer to the script of a launch file.
pub open spec fn materialize_fault(
    target: Seq<char>,
    files: Seq<LaunchFilePlan>,
    answers: Seq<Result<CommandOutput, String>>,
) -> spec_fn(int) -> Option<Seq<char>> {
    |i: int|
        match parent_of(files[i].resolved_path@) {
            None => Some(no_folder(files[i].resolved_path@)),
            Some(_) => match answers[i] {
                Err(error) => Some(error@),
                Ok(output) => if output.success {
                    None
                } else {
                    Some(
                        "failed to materialize launch file "@ + files[i].resolved_path@ + " on "@
                            + debug_text(target) + ": SSH exited with "@ + output.status@ + (": "@
                            + trimmed(lossy_text(output.stderr@))),
                    )
                },
            },
        }
}

/// Checks the answers to the scripts of the launch files of a process on another
/// machine, one for each file in turn; the first fault ends it.
pub fn materialize_ssh_launch_files(
    target: &str,
    launch_files: &[LaunchFilePlan],
    answers: &[Result<CommandOutput, String>],
) -> (r: Result<(), String>)
    requires
        answers@.len() == launch_files@.len(),
    ensures
        checked(
            r,
            first_some(
                launch_files@.len(),
                materialize_fault(target@, launch_files@, answers@),
            ),
        ),
{
    let ghost fault = materialize_fault(target@, launch_files@, answers@);
    let mut i: usize = 0;
    while i < launch_files.len()
        invariant
            i <= launch_files@.len(),
            answers@.len() == launch_files@.len(),
            fault == materialize_fault(target@, launch_files@, answers@),
            first_some(i as nat, fault) is None,
        decreases launch_files@.len() - i,
    {
        let file = &launch_files[i];
        let found = match launch_file_folder(file) {
            Err(error) => Some(error),
            Ok(_) => match &answers[i] {
                Err(error) => Some(error.clone()),
                Ok(output) => if output.success {
                    None
                } else {
                    let errors = decode_lossy(output.stderr.as_slice());
                    let tail = cat2(": ", trim(errors.as_str()));
                    Some(
                        crate::text::cat7(
                            "failed to materialize launch file ",
                            file.resolved_path.as_str(),
                            " on ",
                            debug(target).as_str(),
                            ": SSH exited with ",
                            output.status.as_str(),
                            tail.as_str(),
                        ),
                    )
                },
            },
        };
        assert(text_of(found) == fault(i as int));
        if let Some(error) = found {
            proof {
                lemma_first_some_stays((i + 1) as nat, launch_files@.len(), fault);
            }
            return Err(error);
        }
        i += 1;
    }
    Ok(())
}

/// What stands at the place of a launch file.
#[derive(Debug)]
pub enum ExistingFile {
    /// It cannot be looked at.
    Unreadable { error: String },
    /// It is no regular file.
    NotRegular,
    /// Its contents, or why they cannot be read.
    Regular { contents: Result<Vec<u8>, String> },
}

/// What is wrong with what stands at the place of a launch file.
pub open spec fn existing_fault(target: Seq<char>, expected: Seq<char>, existing: ExistingFile) -> Option<
    Seq<char>,
> {
    match existing {
        ExistingFile::Unreadable { error } => Some(
            "failed to inspect existing launch file "@ + target + ": "@ + error@,
        ),
        ExistingFile::NotRegular => Some(
            "existing launch file target "@ + target + " is not a regular file"@,
        ),
        ExistingFile::Regular { contents } => match contents {
            Err(error) => Some("failed to read launch file "@ + target + ": "@ + error@),
            Ok(bytes) => if crate::digest::sha256_text(bytes@) == expected {
                None
            } else {
                Some(
                    "existing launch file "@ + target + " does not match declared digest "@
                        + expected + "; found "@ + crate::digest::sha256_text(bytes@),
                )
            },
        },
    }
}

/// Accepts what stands at the place of a launch file only where it is a regular
/// file with the declared digest.
pub fn verify_existing_launch_file(target: &str, expected_sha256: &str, existing: &ExistingFile) -> (r:
    Result<(), String>)
    ensures
        checked(r, existing_fault(target@, expected_sha256@, *existing)),
{
    match existing {
        ExistingFile::Unreadable { error } => Err(
            cat4("failed to inspect existing launch file ", target, ": ", error.as_str()),
        ),
        ExistingFile::NotRegular => Err(
            cat3("existing launch file target ", target, " is not a regular file"),
        ),
        ExistingFile::Regular { contents } => match contents {
            Err(error) => Err(cat4("failed to read launch file ", target, ": ", error.as_str())),
            Ok(bytes) => {
                let actual = crate::digest::sha256_hex(bytes.as_slice());
                if crate::text::same(actual.as_str(), expected_sha256) {
                    Ok(())
                } else {
                    Err(
                        cat6(
                            "existing launch file ",
                            target,
                            " does not match declared digest ",
                            expected_sha256,
                            "; found ",
                            actual.as_str(),
                        ),
                    )
                }
            },
        },
    }
}

// ---------------------------------------------------------------------------
// Launching on another machine

/// A process to launch on another machine.
pub struct SshLaunch<'a> {
    pub target: &'a str,
    pub remote_dir: &'a str,
    pub cache_root: &'a str,
    pub command: &'a CommandPlan,
    /// The name of the container, where the command is one of a container client.
    pub container: Option<&'a str>,
}

impl<'a> SshLaunch<'a> {
    /// Where the process's output goes.
    pub open spec fn stdout_path(self) -> Seq<char> {
        joined_path(self.remote_dir@, "stdout.log"@)
    }

    /// Where the process's errors go.
    pub open spec fn stderr_path(self) -> Seq<char> {
        joined_path(self.remote_dir@, "stderr.log"@)
    }

    /// Where the process's identity is kept.
    pub open spec fn handle_path(self) -> Seq<char> {
        joined_path(self.remote_dir@, "launch.handle"@)
    }

    /// Where the process's identity is kept.
    pub fn handle_file(&self) -> (r: String)
        ensures
            r@ == self.handle_path(),
    {
        join_path(self.remote_dir, "launch.handle")
    }

    /// The parts of the script that launches the process.
    pub open spec fn script(self) -> Seq<Seq<char>> {
        seq![
            "set -eu; mkdir -p "@,
            quoted(self.remote_dir@),
            " "@,
            quoted(self.cache_root@),
            "; cd "@,
            quoted(self.command.cwd@),
            "; nohup setsid "@,
            env_command(*self.command),
            " >"@,
            quoted(self.stdout_path()),
            " 2>"@,
            quoted(self.stderr_path()),
            " </dev/null & pid=$!; cleanup_pending=1; cleanup_launch() { if [ \"$cleanup_pending\" = 1 ]; then kill -KILL -- -$pid 2>/dev/null || kill -KILL $pid 2>/dev/null || true; fi; }; trap cleanup_launch EXIT; ticks=$(awk '{print $22}' /proc/$pid/stat); printf '%s %s\\n' \"$pid\" \"$ticks\" > "@,
            quoted(self.handle_path()),
            "; printf 'INFERLAB_HANDLE\\t%s\\t%s\\n' \"$pid\" \"$ticks\"; cleanup_pending=0; trap - EXIT"@,
        ]
    }
}

/// The script that launches a process on another machine and reports its identity.
/// A launch that cannot report it kills what it started.
pub fn ssh_launch_script(launch: &SshLaunch) -> (r: Result<String, String>)
    ensures
        if launch.command.argv@.len() == 0 {
            r matches Err(found) && found@ == "resolved server command is empty"@
        } else {
            r matches Ok(text) && text@ == joined(launch.script(), ""@)
        },
{
    let command = match render_env_command(launch.command) {
        Ok(command) => command,
        Err(error) => return Err(error),
    };
    let parts: Vec<String> = vec![
        "set -eu; mkdir -p ".to_owned(),
        shell_quote_path(launch.remote_dir),
        " ".to_owned(),
        shell_quote_path(launch.cache_root),
        "; cd ".to_owned(),
        shell_quote_path(launch.command.cwd.as_str()),
        "; nohup setsid ".to_owned(),
        command,
        " >".to_owned(),
        shell_quote_path(join_path(launch.remote_dir, "stdout.log").as_str()),
        " 2>".to_owned(),
        shell_quote_path(join_path(launch.remote_dir, "stderr.log").as_str()),
        " </dev/null & pid=$!; cleanup_pending=1; cleanup_launch() { if [ \"$cleanup_pending\" = 1 ]; then kill -KILL -- -$pid 2>/dev/null || kill -KILL $pid 2>/dev/null || true; fi; }; trap cleanup_launch EXIT; ticks=$(awk '{print $22}' /proc/$pid/stat); printf '%s %s\\n' \"$pid\" \"$ticks\" > ".to_owned(),
        shell_quote_path(launch.handle_file().as_str()),
        "; printf 'INFERLAB_HANDLE\\t%s\\t%s\\n' \"$pid\" \"$ticks\"; cleanup_pending=0; trap - EXIT".to_owned(),
    ];
    assert(texts(parts@) =~= launch.script());
    Ok(join(parts.as_slice(), ""))
}

/// The identity that a launch reports: the last marked line counts.
pub open spec fn reported_identity(target: Seq<char>, output: Seq<char>) -> Result<
    (u32, u64),
    Seq<char>,
> {
    match last_marked(text_lines(output), HANDLE_MARKER@) {
        None => Err("SSH launch returned no process id"@),
        Some(payload) => {
            let cut = position(payload, '\t');
            if cut < 0 || cut >= payload.len() {
                Err("SSH launch returned no process start time"@)
            } else {
                let pid = payload.take(cut);
                let ticks = payload.skip(cut + 1);
                match parsed_unsigned(pid, u32::MAX as nat) {
                    None => Err("invalid SSH process id: "@ + small_number_error(pid)),
                    Some(leader) => match parsed_unsigned(ticks, u64::MAX as nat) {
                        None => Err("invalid SSH process start time: "@ + number_error(ticks)),
                        Some(start) => if target.len() == 0 {
                            Err("SSH process handle requires a target"@)
                        } else {
                            match identity_fault(
                                leader as u32,
                                leader as u32,
                                start as u64,
                                "SSH"@,
                            ) {
                                Some(fault) => Err(fault),
                                None => Ok((leader as u32, start as u64)),
                            }
                        },
                    },
                }
            }
        },
    }
}

/// Whether a handle is that of a launch with the identity.
pub open spec fn launched(handle: SshProcessHandle, launch: SshLaunch, leader: u32, ticks: u64) -> bool {
    &&& handle.target@ == launch.target@
    &&& handle.leader_pid == leader
    &&& handle.process_group == leader
    &&& handle.leader_start_time_ticks == ticks
    &&& handle.stdout@ == launch.stdout_path()
    &&& handle.stderr@ == launch.stderr_path()
    &&& text_of(handle.container) == optional_text(launch.container)
}

/// Reads the handle of a process from what its launch reports.
pub fn parse_ssh_handle(launch: &SshLaunch, output: &str) -> (r: Result<SshProcessHandle, String>)
    ensures
        match reported_identity(launch.target@, output@) {
            Err(text) => r matches Err(found) && found@ == text,
            Ok((leader, ticks)) => r matches Ok(handle) && launched(
                handle,
                *launch,
                leader,
                ticks,
            ) && handle.fault() is None,
        },
{
    let payload = match find_last_marked(output, HANDLE_MARKER) {
        Some(payload) => payload,
        None => return Err("SSH launch returned no process id".to_owned()),
    };
    let cut: usize = match find_char(payload.as_str(), '\t') {
        Some(cut) => cut,
        None => return Err("SSH launch returned no process start time".to_owned()),
    };
    let n: usize = payload.as_str().unicode_len();
    let pid = payload.as_str().substring_char(0, cut);
    let ticks = payload.as_str().substring_char(cut + 1, n);
    assert(pid@ =~= payload@.take(cut as int));
    assert(ticks@ =~= payload@.skip(cut + 1));
    let leader_pid: u32 = match parse_u32(pid) {
        Ok(leader) => leader,
        Err(error) => return Err(cat2("invalid SSH process id: ", error.as_str())),
    };
    let leader_start_time_ticks: u64 = match parse_u64(ticks) {
        Ok(start) => start,
        Err(error) => return Err(cat2("invalid SSH process start time: ", error.as_str())),
    };
    let handle = SshProcessHandle {
        target: launch.target.to_owned(),
        leader_pid,
        process_group: leader_pid,
        leader_start_time_ticks,
        stdout: join_path(launch.remote_dir, "stdout.log"),
        stderr: join_path(launch.remote_dir, "stderr.log"),
        container: match launch.container {
            Some(container) => Some(container.to_owned()),
            None => None,
        },
    };
    match handle.validate() {
        Err(error) => Err(error),
        Ok(()) => Ok(handle),
    }
}

/// Why a launch on another machine gave no handle.
#[derive(Debug)]
pub enum SshLaunchFault {
    /// Nothing was started.
    Before { failure: LaunchFailure },
    /// Something may have been started; it is to be cleaned up.
    Undelivered { message: String },
}

/// Whether a fault is one before anything was started.
pub open spec fn fails_before(
    r: Result<SshProcessHandle, SshLaunchFault>,
    message: Seq<char>,
) -> bool {
    r matches Err(SshLaunchFault::Before { failure }) && failure@ == failed_before(message)
}

/// Whether a fault leaves something to clean up.
pub open spec fn undelivered(
    r: Result<SshProcessHandle, SshLaunchFault>,
    message: Seq<char>,
) -> bool {
    r matches Err(SshLaunchFault::Undelivered { message: found }) && found@ == message
}

/// Whether a result is what the answer to a launch script gives.
pub open spec fn spawned(
    r: Result<SshProcessHandle, SshLaunchFault>,
    launch: SshLaunch,
    answer: Result<CommandOutput, String>,
) -> bool {
    match answer {
        Err(error) => fails_before(r, error@),
        Ok(output) => if !output.success {
            undelivered(
                r,
                "SSH launch on "@ + debug_text(launch.target@) + " exited with "@ + output.status@
                    + ": "@ + trimmed(lossy_text(output.stderr@)),
            )
        } else if !valid_utf8(output.stdout@) {
            undelivered(
                r,
                "SSH launch returned non-UTF-8 identity: "@ + utf8_error(output.stdout@),
            )
        } else {
            match reported_identity(launch.target@, decode_utf8(output.stdout@)) {
                Err(text) => undelivered(r, text),
                Ok((leader, ticks)) => r matches Ok(handle) && launched(
                    handle,
                    launch,
                    leader,
                    ticks,
                ) && handle.fault() is None,
            }
        },
    }
}

/// The handle of a process that was launched on another machine. `files` are the
/// answers to the scripts of its launch files, `answer` that to its launch script.
pub fn spawn_ssh(
    launch: &SshLaunch,
    launch_files: &[LaunchFilePlan],
    files: &[Result<CommandOutput, String>],
    answer: &Result<CommandOutput, String>,
) -> (r: Result<SshProcessHandle, SshLaunchFault>)
    requires
        files@.len() == launch_files@.len(),
    ensures
        if launch.command.argv@.len() == 0 {
            fails_before(r, "resolved server command is empty"@)
        } else {
            match first_some(
                launch_files@.len(),
                materialize_fault(launch.target@, launch_files@, files@),
            ) {
                Some(fault) => fails_before(r, fault),
                None => spawned(r, *launch, *answer),
            }
        },
{
    if launch.command.argv.len() == 0 {
        return Err(
            SshLaunchFault::Before {
                failure: LaunchFailure::before_launch(
                    "resolved server command is empty".to_owned(),
                ),
            },
        );
    }
    match materialize_ssh_launch_files(launch.target, launch_files, files) {
        Err(error) => {
            return Err(SshLaunchFault::Before { failure: LaunchFailure::before_launch(error) });
        },
        Ok(()) => {},
    }
    let output = match answer {
        Err(error) => {
            return Err(
                SshLaunchFault::Before { failure: LaunchFailure::before_launch(error.clone()) },
            );
        },
        Ok(output) => output,
    };
    if !output.success {
        let errors = decode_lossy(output.stderr.as_slice());
        return Err(
            SshLaunchFault::Undelivered {
                message: cat6(
                    "SSH launch on ",
                    debug(launch.target).as_str(),
                    " exited with ",
                    output.status.as_str(),
                    ": ",
                    trim(errors.as_str()),
                ),
            },
        );
    }
    let text = match decode_bytes(slice_to_vec(output.stdout.as_slice())) {
        Ok(text) => text,
        Err(error) => {
            return Err(
                SshLaunchFault::Undelivered {
                    message: cat2("SSH launch returned non-UTF-8 identity: ", error.as_str()),
                },
            );
        },
    };
    match parse_ssh_handle(launch, text.as_str()) {
        Ok(handle) => Ok(handle),
        Err(message) => Err(SshLaunchFault::Undelivered { message }),
    }
}

// ---------------------------------------------------------------------------
// Launches that failed

/// The parts of the script that clears away a launch that gave no handle.
pub open spec fn incomplete_script(remote_handle: Seq<char>) -> Seq<Seq<char>> {
    let alive = group_alive("$pid"@);
    seq![
        "set +e; file="@,
        quoted(remote_handle),
        "; if [ ! -r \"$file\" ]; then exit 4; fi; read pid expected < \"$file\" || exit 4; if [ -r /proc/$pid/stat ]; then actual=$(awk '{print $22}' /proc/$pid/stat) || exit 4; [ \"$actual\" = \"$expected\" ] || exit 4; elif "@,
        alive,
        "; then exit 5; else rm -f \"$file\"; exit 0; fi; if ! "@,
        alive,
        "; then rm -f \"$file\"; exit 0; fi; kill -TERM -- -$pid; i=0; while "@,
        alive,
        " && [ $i -lt "@,
        decimal(TERM_POLL_LIMIT as nat),
        " ]; do sleep 0.1; i=$((i+1)); done; if "@,
        alive,
        "; then kill -KILL -- -$pid; i=0; while "@,
        alive,
        " && [ $i -lt "@,
        decimal(KILL_POLL_LIMIT as nat),
        " ]; do sleep 0.1; i=$((i+1)); done; fi; if "@,
        alive,
        "; then exit 6; fi; rm -f \"$file\""@,
    ]
}

/// The script that clears away a launch that gave no handle: it goes by the
/// identity that the launch kept, and touches nothing that does not match it.
pub fn incomplete_launch_script(remote_handle: &str) -> (r: String)
    ensures
        r@ == joined(incomplete_script(remote_handle@), ""@),
{
    let alive = remote_group_alive_script("$pid");
    let parts: Vec<String> = vec![
        "set +e; file=".to_owned(),
        shell_quote_path(remote_handle),
        "; if [ ! -r \"$file\" ]; then exit 4; fi; read pid expected < \"$file\" || exit 4; if [ -r /proc/$pid/stat ]; then actual=$(awk '{print $22}' /proc/$pid/stat) || exit 4; [ \"$actual\" = \"$expected\" ] || exit 4; elif ".to_owned(),
        alive.clone(),
        "; then exit 5; else rm -f \"$file\"; exit 0; fi; if ! ".to_owned(),
        alive.clone(),
        "; then rm -f \"$file\"; exit 0; fi; kill -TERM -- -$pid; i=0; while ".to_owned(),
        alive.clone(),
        " && [ $i -lt ".to_owned(),
        to_decimal_wide(TERM_POLL_LIMIT),
        " ]; do sleep 0.1; i=$((i+1)); done; if ".to_owned(),
        alive.clone(),
        "; then kill -KILL -- -$pid; i=0; while ".to_owned(),
        alive.clone(),
        " && [ $i -lt ".to_owned(),
        to_decimal_wide(KILL_POLL_LIMIT),
        " ]; do sleep 0.1; i=$((i+1)); done; fi; if ".to_owned(),
        alive.clone(),
        "; then exit 6; fi; rm -f \"$file\"".to_owned(),
    ];
    assert(texts(parts@) =~= incomplete_script(remote_handle@));
    join(parts.as_slice(), "")
}

/// What is wrong with the answer to the script that clears a launch away.
pub open spec fn incomplete_fault(answer: Result<CommandOutput, String>) -> Option<Seq<char>> {
    match answer {
        Err(error) => Some(error@),
        Ok(output) => if output.success {
            None
        } else {
            Some(
                "SSH cleanup exited with "@ + output.status@ + ": "@ + trimmed(
                    lossy_text(output.stderr@),
                ),
            )
        },
    }
}

/// Whether a launch that gave no handle was cleared away, from the answer to its
/// script.
pub fn cleanup_incomplete_ssh_launch(answer: &Result<CommandOutput, String>) -> (r: Result<
    (),
    String,
>)
    ensures
        checked(r, incomplete_fault(*answer)),
{
    match answer {
        Err(error) => Err(error.clone()),
        Ok(output) => if output.success {
            Ok(())
        } else {
            let errors = decode_lossy(output.stderr.as_slice());
            Err(
                cat4(
                    "SSH cleanup exited with ",
                    output.status.as_str(),
                    ": ",
                    trim(errors.as_str()),
                ),
            )
        },
    }
}

/// The name of a container, where there is one.
pub open spec fn named(container: Option<&str>) -> Option<Seq<char>> {
    match container {
        Some(name) => Some(name@),
        None => None,
    }
}

/// The message of a launch that gave no handle, with what became of it.
pub open spec fn undelivered_message(
    message: Seq<char>,
    remote_handle: Seq<char>,
    fault: Option<Seq<char>>,
    removal: Option<RemovalView>,
) -> Seq<char> {
    let removed = match removal {
        Some(found) => message + "; "@ + removal_words(found),
        None => message,
    };
    match fault {
        None => removed + "; cleaned the remote process using "@ + remote_handle,
        Some(error) => removed + "; remote launch cleanup using "@ + remote_handle
            + " was not verified: "@ + error,
    }
}

/// The cleanup of a launch that gave no handle.
pub open spec fn undelivered_cleanup(
    fault: Option<Seq<char>>,
    removal: Option<RemovalView>,
    elapsed_ms: u64,
) -> CleanupView {
    let trigger = CleanupTrigger::StartupRollback;
    let process = match fault {
        None => complete_cleanup(trigger, false, false, Seq::empty()),
        Some(error) => failed_cleanup(trigger, false, Seq::empty(), error),
    };
    let verified = fault is None && (removal matches Some(found) ==> found.confirmed);
    CleanupView {
        elapsed_ms,
        remote_deadline_ms: Some(millis(REMOTE_SERVER_CLEANUP_DEADLINE)),
        container_removal: removal,
        verified,
        error: if verified || process.error is Some {
            process.error
        } else {
            match removal {
                Some(found) => found.error,
                None => None,
            }
        },
        ..process
    }
}

/// A launch on another machine that gave no handle, with what became of it: first
/// the launcher was stopped, then the container removed, so that no container can
/// appear after its absence was seen.
pub fn failed_ssh_handle_delivery(
    remote_handle: &str,
    container: Option<&str>,
    message: &str,
    process_cleanup: &Result<(), String>,
    removal: Option<ContainerRemovalEvidence>,
    elapsed_ms: u64,
) -> (r: LaunchFailure)
    requires
        removal_fits(named(container), removal_of(removal)),
    ensures
        ({
            let fault = match *process_cleanup {
                Ok(()) => None,
                Err(error) => Some(error@),
            };
            let cleanup = undelivered_cleanup(fault, removal_of(removal), elapsed_ms);
            r@ == (LaunchFailureView {
                message: undelivered_message(message@, remote_handle@, fault, removal_of(removal)),
                ownership_unknown: !cleanup.verified,
                container_removal: removal_of(removal),
                cleanup: Some(cleanup),
            })
        }),
{
    let removal_confirmed: bool = match &removal {
        Some(found) => found.confirmed,
        None => true,
    };
    let removed = match &removal {
        Some(found) => cat3(message, "; ", removal_summary(found).as_str()),
        None => message.to_owned(),
    };
    let signals: Vec<SignalEvidence> = Vec::new();
    assert(signals_of(signals@) =~= Seq::empty());
    let (full, mut cleanup, process_confirmed): (String, CleanupEvidence, bool) =
        match process_cleanup {
        Ok(()) => (
            cat3(removed.as_str(), "; cleaned the remote process using ", remote_handle),
            completed_cleanup(CleanupTrigger::StartupRollback, false, false, signals),
            true,
        ),
        Err(error) => (
            cat5(
                removed.as_str(),
                "; remote launch cleanup using ",
                remote_handle,
                " was not verified: ",
                error.as_str(),
            ),
            cleanup_error(CleanupTrigger::StartupRollback, false, signals, error.clone()),
            false,
        ),
    };
    let verified: bool = removal_confirmed && process_confirmed;
    cleanup.elapsed_ms = elapsed_ms;
    cleanup.remote_deadline_ms = Some(duration_ms(REMOTE_SERVER_CLEANUP_DEADLINE));
    if !verified && cleanup.error.is_none() {
        cleanup.error = match &removal {
            Some(found) => copy_text(&found.error),
            None => None,
        };
    }
    cleanup.verified = verified;
    cleanup.container_removal = match &removal {
        Some(found) => Some(found.clone()),
        None => None,
    };
    LaunchFailure {
        message: full,
        ownership_unknown: !verified,
        container_removal: removal,
        cleanup: Some(cleanup),
    }
}

/// A local launch whose process could not be identified, with what became of it.
pub open spec fn unidentified(
    error: Seq<char>,
    cleanup: CleanupView,
    removal: Option<RemovalView>,
) -> LaunchFailureView {
    let message = match cleanup.error {
        None => error,
        Some(fault) => error + "; local launch cleanup was not verified: "@ + fault,
    };
    match removal {
        None => LaunchFailureView {
            message,
            ownership_unknown: !cleanup.verified,
            container_removal: None,
            cleanup: Some(cleanup),
        },
        Some(found) => {
            let whole = CleanupView {
                verified: cleanup.verified && found.confirmed,
                error: if found.confirmed || cleanup.error is Some {
                    cleanup.error
                } else {
                    found.error
                },
                container_removal: removal,
                ..cleanup
            };
            LaunchFailureView {
                message: message + "; "@ + removal_words(found),
                ownership_unknown: !whole.verified,
                container_removal: removal,
                cleanup: Some(whole),
            }
        },
    }
}

/// A local launch whose process could not be identified: what the cleanup of its
/// child and the removal of its container came to.
pub fn failed_local_launch(
    container: Option<&str>,
    error: &str,
    cleanup: CleanupEvidence,
    removal: Option<ContainerRemovalEvidence>,
) -> (r: LaunchFailure)
    requires
        removal_fits(named(container), removal_of(removal)),
    ensures
        r@ == unidentified(error@, cleanup@, removal_of(removal)),
{
    let mut cleanup = cleanup;
    let message = match &cleanup.error {
        None => error.to_owned(),
        Some(fault) => cat3(
            error,
            "; local launch cleanup was not verified: ",
            fault.as_str(),
        ),
    };
    match removal {
        None => LaunchFailure {
            message,
            ownership_unknown: !cleanup.verified,
            container_removal: None,
            cleanup: Some(cleanup),
        },
        Some(removal) => {
            if !removal.confirmed {
                cleanup.verified = false;
                if cleanup.error.is_none() {
                    cleanup.error = copy_text(&removal.error);
                }
            }
            cleanup.container_removal = Some(removal.clone());
            LaunchFailure {
                message: cat3(message.as_str(), "; ", removal_summary(&removal).as_str()),
                ownership_unknown: !cleanup.verified,
                container_removal: Some(removal),
                cleanup: Some(cleanup),
            }
        },
    }
}

// ---------------------------------------------------------------------------
// Laws

/// A handle that a launch gives back is a valid one.
pub proof fn law_launched_handle_is_valid(
    r: Result<SshProcessHandle, SshLaunchFault>,
    launch: SshLaunch,
    answer: Result<CommandOutput, String>,
)
    requires
        spawned(r, launch, answer),
        r is Ok,
    ensures
        r->Ok_0.fault() is None,
        r->Ok_0.leader_pid == r->Ok_0.process_group,
        r->Ok_0.target@ == launch.target@,
{
}

/// A launch that gave no handle is only taken for cleared away where both its
/// process and its container are known to be gone.
pub proof fn law_ownership_is_known_only_after_both_cleanups(
    fault: Option<Seq<char>>,
    removal: Option<RemovalView>,
    elapsed_ms: u64,
    error: Seq<char>,
    cleanup: CleanupView,
)
    ensures
        undelivered_cleanup(fault, removal, elapsed_ms).verified <==> fault is None && (removal
            matches Some(found) ==> found.confirmed),
        !unidentified(error, cleanup, removal).ownership_unknown <==> cleanup.verified && (removal
            matches Some(found) ==> found.confirmed),
{
}

/// A file that already stands at the place of a launch file is only accepted where
/// its contents have the declared digest.
pub proof fn law_accepted_file_has_the_declared_digest(
    target: Seq<char>,
    expected: Seq<char>,
    existing: ExistingFile,
)
    requires
        existing_fault(target, expected, existing) is None,
    ensures
        existing matches ExistingFile::Regular { contents: Ok(bytes) }
            && crate::digest::sha256_text(bytes@) == expected,
{
}

/// A command that is launched on another machine runs there with nothing but its own
/// variables: a shell reads each of its words back as it was, the variables first, each
/// with its value, and the words of the command last.
pub proof fn law_remote_command_is_read_back(command: CommandPlan) -> (words: Seq<Seq<char>>)
    ensures
        env_command(command) == joined(words, " "@),
        words.len() == 2 + command.env.entries@.len() + command.pass_env@.len()
            + command.argv@.len(),
        words[0] == "env"@,
        words[1] == "-i"@,
        forall|i: int|
            0 <= i < command.env.entries@.len() ==> shell_word(#[trigger] words[2 + i], Reading::Bare)
                == Some(command.env.entries@[i].0@ + "="@ + command.env.entries@[i].1@),
        forall|i: int|
            0 <= i < command.argv@.len() ==> shell_word(
                #[trigger] words[words.len() - command.argv@.len() + i],
                Reading::Bare,
            ) == Some(command.argv@[i]@),
{
    let own = env_words(command.env.entries@);
    let taken = reference_words(texts(command.pass_env@));
    let run = quoted_words(texts(command.argv@));
    let words = seq!["env"@, "-i"@] + own + taken + run;
    assert forall|i: int| 0 <= i < command.env.entries@.len() implies shell_word(
        #[trigger] words[2 + i],
        Reading::Bare,
    ) == Some(command.env.entries@[i].0@ + "="@ + command.env.entries@[i].1@) by {
        assert(words[2 + i] == own[i]);
        law_quoted_text_is_read_back(
            command.env.entries@[i].0@ + "="@ + command.env.entries@[i].1@,
        );
    }
    assert forall|i: int| 0 <= i < command.argv@.len() implies shell_word(
        #[trigger] words[words.len() - command.argv@.len() + i],
        Reading::Bare,
    ) == Some(command.argv@[i]@) by {
        assert(words[words.len() - command.argv@.len() + i] == run[i]);
        law_quoted_text_is_read_back(command.argv@[i]@);
    }
    words
}

/// A process is launched in its own directory, and writes its output, its errors and its
/// identity to three files of its own below its remote directory: the files of the
/// handle that the launch gives.
pub proof fn law_handle_names_the_files_of_the_launch(
    launch: SshLaunch,
    handle: SshProcessHandle,
    leader: u32,
    ticks: u64,
)
    requires
        launched(handle, launch, leader, ticks),
    ensures
        shell_word(launch.script()[1], Reading::Bare) == Some(launch.remote_dir@),
        shell_word(launch.script()[3], Reading::Bare) == Some(launch.cache_root@),
        shell_word(launch.script()[5], Reading::Bare) == Some(launch.command.cwd@),
        launch.script()[7] == env_command(*launch.command),
        shell_word(launch.script()[9], Reading::Bare) == Some(handle.stdout@),
        shell_word(launch.script()[11], Reading::Bare) == Some(handle.stderr@),
        handle.stdout@ == joined_path(launch.remote_dir@, "stdout.log"@),
        handle.stderr@ == joined_path(launch.remote_dir@, "stderr.log"@),
        shell_word(launch.script()[13], Reading::Bare) == Some(
            joined_path(launch.remote_dir@, "launch.handle"@),
        ),
        handle.target@ == launch.target@,
        handle.leader_pid == leader && handle.process_group == leader,
        handle.leader_start_time_ticks == ticks,
{
    law_quoted_text_is_read_back(launch.remote_dir@);
    law_quoted_text_is_read_back(launch.cache_root@);
    law_quoted_text_is_read_back(launch.command.cwd@);
    law_quoted_text_is_read_back(handle.stdout@);
    law_quoted_text_is_read_back(handle.stderr@);
    law_quoted_text_is_read_back(launch.handle_path());
}

/// The identity that a launch reports on its marked line is the one that is taken: the
/// process first, then when it started.
pub proof fn law_reported_identity_is_taken(
    target: Seq<char>,
    output: Seq<char>,
    before: Seq<Seq<char>>,
    pid: u32,
    ticks: u64,
)
    requires
        target.len() > 0,
        pid > 0,
        ticks > 0,
        text_lines(output) == before.push(
            "INFERLAB_HANDLE\t"@ + (decimal(pid as nat) + seq!['\t'] + decimal(ticks as nat)),
        ),
    ensures
        reported_identity(target, output) == Ok::<(u32, u64), Seq<char>>((pid, ticks)),
{
    let payload = decimal(pid as nat) + seq!['\t'] + decimal(ticks as nat);
    let rows = text_lines(output);
    crate::text::law_last_marked_line_counts(before, HANDLE_MARKER@, payload, Seq::empty());
    assert(before.push(HANDLE_MARKER@ + payload) + Seq::<Seq<char>>::empty() =~= rows);
    crate::text::law_decimal_reads_back(pid as nat);
    crate::text::law_decimal_is_parsed_back(pid as nat, u32::MAX as nat);
    crate::text::law_decimal_is_parsed_back(ticks as nat, u64::MAX as nat);
    crate::text::lemma_position(payload, '\t');
    let at = decimal(pid as nat).len() as int;
    assert(payload[at] == '\t');
    assert forall|j: int| 0 <= j < at implies payload[j] != '\t' by {
        assert(payload[j] == decimal(pid as nat)[j]);
        assert(crate::text::digit(decimal(pid as nat)[j]));
    }
    assert(position(payload, '\t') == at);
    assert(payload.take(at) =~= decimal(pid as nat));
    assert(payload.skip(at + 1) =~= decimal(ticks as nat));
}

/// A launch file is written where it is declared to stand, under the digest that it is
/// declared with, and nothing else is written.
pub proof fn law_launch_file_is_written_where_it_stands(file: LaunchFilePlan, folder: Seq<char>)
    ensures
        shell_word(launch_file_script(file, folder)[1], Reading::Bare) == Some(folder),
        shell_word(launch_file_script(file, folder)[3], Reading::Bare) == Some(file.resolved_path@),
        shell_word(launch_file_script(file, folder)[5], Reading::Bare) == Some(file.sha256@),
{
    law_quoted_text_is_read_back(folder);
    law_quoted_text_is_read_back(file.resolved_path@);
    law_quoted_text_is_read_back(file.sha256@);
}

/// A launch file is there exactly where it has a folder and its script succeeded.
pub proof fn law_launch_file_is_there_where_its_script_succeeded(
    target: Seq<char>,
    files: Seq<LaunchFilePlan>,
    answers: Seq<Result<CommandOutput, String>>,
    i: int,
)
    ensures
        materialize_fault(target, files, answers)(i) is None <==> parent_of(
            files[i].resolved_path@,
        ) is Some && (answers[i] matches Ok(output) && output.success),
{
}

/// A launch that gave no handle is cleared away exactly where its script succeeded; its
/// message is told first, whatever became of it.
pub proof fn law_message_of_a_failed_launch_comes_first(
    message: Seq<char>,
    remote_handle: Seq<char>,
    answer: Result<CommandOutput, String>,
    removal: Option<RemovalView>,
)
    ensures
        incomplete_fault(answer) is None <==> (answer matches Ok(output) && output.success),
        ({
            let told = undelivered_message(message, remote_handle, incomplete_fault(answer), removal);
            message.len() <= told.len() && told.take(message.len() as int) == message
        }),
{
    let told = undelivered_message(message, remote_handle, incomplete_fault(answer), removal);
    assert(told.take(message.len() as int) =~= message);
}

} // verus!
