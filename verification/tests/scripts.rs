use inferlab::dict::Dict;
use inferlab::process_group::CommandOutput;
use inferlab::protocol::{EndpointAssignment, ServeRoleKind};
use inferlab::resolve::allocation::{
    AllocationIdentity, LaunchPlan, ModelLocatorSource, ReadinessPlan, ResolvedProcessAllocation,
    RuntimeCacheNamespacePlan, RuntimeCachePlan, RuntimeCacheRootSource,
};
use inferlab::resolve::realization::{
    CommandPlan, ProcessCommandSource, ProcessIdentityPlan, ProcessPlan,
};
use inferlab::server::checks::remote_check_script;
use inferlab::server::cleanup::{
    ssh_cleanup_script, KILL_GRACE, KILL_POLL_LIMIT, POLL_INTERVAL, TERM_GRACE, TERM_POLL_LIMIT,
};
use inferlab::server::handle::{ssh_status_script, SshProcessHandle};
use inferlab::server::launch::{incomplete_launch_script, ssh_launch_script, SshLaunch};
use inferlab::server::network::{parse_probe, NETWORK_MARKER, PROBE_SCRIPT};
use inferlab::server::preflight::{
    container_script, preflight_container_targets, preflight_targets, remote_machines,
    workspace_script, WorkspaceScript,
};
use inferlab::server::targets::check_executable;
use inferlab::ssh::ssh_argv;
use inferlab::workspace::{LaunchBinding, WorkspaceSnapshot};

fn command(argv: &[&str]) -> CommandPlan {
    let mut env = Dict::new();
    env.insert("A".to_owned(), "b c".to_owned());
    CommandPlan {
        argv: argv.iter().map(|word| (*word).to_owned()).collect(),
        env,
        explicit_env: Vec::new(),
        pass_env: Vec::new(),
        cwd: "/remote/ws/.inferlab".to_owned(),
    }
}

fn handle() -> SshProcessHandle {
    SshProcessHandle {
        target: "node-a".to_owned(),
        leader_pid: 41,
        process_group: 41,
        leader_start_time_ticks: 99,
        stdout: "/r/stdout.log".to_owned(),
        stderr: "/r/stderr.log".to_owned(),
        container: None,
    }
}

fn ended(exit_code: i32, stdout: &str, stderr: &str) -> Result<CommandOutput, String> {
    Ok(CommandOutput {
        exit_code: Some(exit_code),
        success: exit_code == 0,
        status: format!("exit status: {exit_code}"),
        stdout: stdout.as_bytes().to_vec(),
        stderr: stderr.as_bytes().to_vec(),
    })
}

fn allocation() -> ResolvedProcessAllocation {
    ResolvedProcessAllocation {
        process: "serve-0".to_owned(),
        identity: AllocationIdentity::ModelRank {
            role: "serve".to_owned(),
            role_kind: ServeRoleKind::Serve,
            replica: 0,
            rank: 0,
            rank_count: 1,
            model_locator: "/models/m".to_owned(),
            model_locator_source: ModelLocatorSource::Fallback,
        },
        machine: "node-a".to_owned(),
        devices: vec![0],
        endpoint: None,
        ports: Dict::new(),
        launch: LaunchBinding::Local,
        dependencies: Vec::new(),
        runtime_cache: RuntimeCachePlan {
            storage_root: "/cache".to_owned(),
            storage_root_source: RuntimeCacheRootSource::WorkspaceDefault,
            namespace: RuntimeCacheNamespacePlan {
                workspace_source_digest: "source".to_owned(),
                pixi_environment: "vllm".to_owned(),
                image_id: None,
                machine: "node-a".to_owned(),
                process: "serve-0".to_owned(),
            },
            path: "/cache/runtime".to_owned(),
        },
    }
}

fn process<'a>(
    id: &str,
    machine: &str,
    launch: LaunchPlan,
    argv: &[&str],
    allocation: &'a ResolvedProcessAllocation,
) -> ProcessPlan<'a> {
    ProcessPlan {
        id: id.to_owned(),
        identity: ProcessIdentityPlan::ModelRank {
            rank: 0,
            rank_count: 1,
        },
        command_source: ProcessCommandSource::Integration,
        machine: machine.to_owned(),
        launch,
        launch_dependencies: Vec::new(),
        allocation,
        communication_interface: None,
        command: command(argv),
        launch_files: Vec::new(),
        readiness: ReadinessPlan::ProcessAlive {
            timeout_seconds: None,
            attempt_timeout_seconds: 5,
        },
        endpoint: EndpointAssignment {
            host: "10.0.0.1".to_owned(),
            port: 8000,
        },
        capture_target: None,
    }
}

fn remote(target: &str) -> LaunchPlan {
    LaunchPlan::Ssh {
        target: target.to_owned(),
    }
}

fn snapshot() -> WorkspaceSnapshot {
    WorkspaceSnapshot {
        revision: "abc".to_owned(),
        dirty: false,
        source_digest: "digest".to_owned(),
        source_exclusions: Vec::new(),
        pixi_manifest_sha256: "manifest".to_owned(),
        pixi_lock_sha256: "lock".to_owned(),
    }
}

fn observed(revision: &str, status: i32) -> String {
    format!(
        "motd\nINFERLAB_PREFLIGHT\t{revision}\t0\tdigest\tmanifest\tlock\t/opt/pixi\t/bin\t/home/u\t{status}\n"
    )
}

#[test]
fn grace_periods_are_whole_numbers_of_polls() {
    assert_eq!(TERM_POLL_LIMIT * POLL_INTERVAL, TERM_GRACE);
    assert_eq!(KILL_POLL_LIMIT * POLL_INTERVAL, KILL_GRACE);
    assert_eq!((TERM_POLL_LIMIT, KILL_POLL_LIMIT), (20, 100));
}

#[test]
fn a_remote_launch_script_reports_its_handle() {
    let command = command(&["/opt/pixi", "run"]);
    let launch = SshLaunch {
        target: "node-a",
        remote_dir: "/r/dir",
        cache_root: "/cache/it's",
        command: &command,
        container: None,
    };
    assert_eq!(
        ssh_launch_script(&launch).unwrap(),
        "set -eu; mkdir -p '/r/dir' '/cache/it'\"'\"'s'; cd '/remote/ws/.inferlab'; nohup setsid env -i 'A=b c' '/opt/pixi' 'run' >'/r/dir/stdout.log' 2>'/r/dir/stderr.log' </dev/null & pid=$!; cleanup_pending=1; cleanup_launch() { if [ \"$cleanup_pending\" = 1 ]; then kill -KILL -- -$pid 2>/dev/null || kill -KILL $pid 2>/dev/null || true; fi; }; trap cleanup_launch EXIT; ticks=$(awk '{print $22}' /proc/$pid/stat); printf '%s %s\\n' \"$pid\" \"$ticks\" > '/r/dir/launch.handle'; printf 'INFERLAB_HANDLE\\t%s\\t%s\\n' \"$pid\" \"$ticks\"; cleanup_pending=0; trap - EXIT"
    );
}

#[test]
fn an_empty_command_has_no_launch_script() {
    let command = command(&[]);
    let launch = SshLaunch {
        target: "node-a",
        remote_dir: "/r/dir",
        cache_root: "/cache",
        command: &command,
        container: None,
    };
    assert_eq!(
        ssh_launch_script(&launch).err().as_deref(),
        Some("resolved server command is empty")
    );
}

fn alive(group: &str) -> String {
    format!(
        "ps -eo pgid=,stat= | awk -v pgid={group} '$1 == pgid && $2 !~ /^Z/ {{ found=1 }} END {{ exit !found }}'"
    )
}

#[test]
fn status_scripts_hold_the_recorded_identity() {
    assert_eq!(
        ssh_status_script(&handle()),
        format!(
            "set -eu; pid=41; expected=99; if [ -r /proc/$pid/stat ]; then actual=$(awk '{{print $22}}' /proc/$pid/stat); if [ \"$actual\" != \"$expected\" ]; then printf 'stale %s\\n' \"$actual\"; exit 4; fi; elif {alive}; then printf 'unknown leader-missing\\n'; exit 5; else printf 'dead\\n'; exit 3; fi; if {alive}; then printf 'alive\\n'; exit 0; fi; printf 'dead\\n'; exit 3",
            alive = alive("41"),
        )
    );
}

#[test]
fn cleanup_scripts_ask_before_they_kill() {
    let alive = alive("$pgid");
    assert_eq!(
        ssh_cleanup_script(&handle()),
        format!(
            "set +e; pgid=41; pid=41; expected=99; if [ -r /proc/$pid/stat ]; then actual=$(awk '{{print $22}}' /proc/$pid/stat); if [ $? -ne 0 ]; then printf 'INFERLAB_CLEANUP\\tunknown\\t-\\t0\\t-\\t1\\tstat-unreadable\\n'; exit 0; fi; if [ \"$actual\" != \"$expected\" ]; then printf 'INFERLAB_CLEANUP\\tstale\\t-\\t0\\t-\\t0\\t%s\\n' \"$actual\"; exit 0; fi; elif {alive}; then printf 'INFERLAB_CLEANUP\\tunknown\\t-\\t0\\t-\\t1\\tleader-missing\\n'; exit 0; else printf 'INFERLAB_CLEANUP\\talready\\t-\\t0\\t-\\t0\\t-\\n'; exit 0; fi; if ! {alive}; then printf 'INFERLAB_CLEANUP\\talready\\t-\\t0\\t-\\t0\\t-\\n'; exit 0; fi; kill -TERM -- -$pgid; term_code=$?; i=0; while {alive} && [ $i -lt 20 ]; do sleep 0.1; i=$((i+1)); done; forced=0; kill_code=-; if {alive}; then forced=1; kill -KILL -- -$pgid; kill_code=$?; i=0; while {alive} && [ $i -lt 100 ]; do sleep 0.1; i=$((i+1)); done; fi; alive=0; if {alive}; then alive=1; fi; printf 'INFERLAB_CLEANUP\\tcleanup\\t%s\\t%s\\t%s\\t%s\\t-\\n' \"$term_code\" \"$forced\" \"$kill_code\" \"$alive\"",
        )
    );
}

#[test]
fn incomplete_launches_are_cleaned_by_their_handle_file() {
    let alive = alive("$pid");
    assert_eq!(
        incomplete_launch_script("/r/launch.handle"),
        format!(
            "set +e; file='/r/launch.handle'; if [ ! -r \"$file\" ]; then exit 4; fi; read pid expected < \"$file\" || exit 4; if [ -r /proc/$pid/stat ]; then actual=$(awk '{{print $22}}' /proc/$pid/stat) || exit 4; [ \"$actual\" = \"$expected\" ] || exit 4; elif {alive}; then exit 5; else rm -f \"$file\"; exit 0; fi; if ! {alive}; then rm -f \"$file\"; exit 0; fi; kill -TERM -- -$pid; i=0; while {alive} && [ $i -lt 20 ]; do sleep 0.1; i=$((i+1)); done; if {alive}; then kill -KILL -- -$pid; i=0; while {alive} && [ $i -lt 100 ]; do sleep 0.1; i=$((i+1)); done; fi; if {alive}; then exit 6; fi; rm -f \"$file\"",
        )
    );
}

#[test]
fn checks_run_in_the_locked_environment() {
    assert_eq!(
        remote_check_script("/remote/ws", "/opt/pixi", "vllm", "checks/gpu.py"),
        "cd '/remote/ws' && '/opt/pixi' run --locked --no-install --executable -e 'vllm' -- python 'checks/gpu.py'"
    );
}

#[test]
fn container_probes_ask_for_the_passed_variables() {
    assert_eq!(
        container_script("repo/image:1", &["TOKEN".to_owned(), "CACHE".to_owned()]),
        "set -eu; present=1; docker image inspect --format '{{.Id}}' 'repo/image:1' >/dev/null 2>&1 || present=0; set_env=\"\"; if [ -n \"${TOKEN+x}\" ]; then set_env=\"$set_env TOKEN\"; fi; if [ -n \"${CACHE+x}\" ]; then set_env=\"$set_env CACHE\"; fi; printf 'INFERLAB_CONTAINER_PREFLIGHT\\t%s\\t%s\\t%s\\t%s\\t%s\\t%s\\t%s\\n' \"$present\" \"$(id -u)\" \"$(id -g)\" \"$(id -un)\" \"$PATH\" \"$HOME\" \"$set_env\""
    );
}

#[test]
fn workspace_probes_report_the_locked_environment() {
    let script = workspace_script(&WorkspaceScript {
        root: "/remote/ws",
        status_flags: "--porcelain",
        source_pathspecs: ".",
        source_digest: "digest-command",
        confirmation_cache_dir: ".inferlab/cache/confirmations",
        pixi_envs_dir: ".pixi/envs",
        environment: "vllm",
    });
    assert!(script.starts_with(
        "set -eu; cd '/remote/ws'; pixi=$(type -P pixi); revision=$(git rev-parse HEAD); dirty=0; test -z \"$(git status --porcelain -- .)\" || dirty=1; source_digest=$(digest-command); manifest=$(sha256sum pixi.toml | awk '{print $1}'); lock=$(sha256sum pixi.lock | awk '{print $1}'); marker=.inferlab/cache/confirmations/'vllm'/confirmed; set +e; if test -d .pixi/envs/'vllm' && test -f \"$marker\""
    ));
    assert!(script.ends_with(
        "printf 'INFERLAB_PREFLIGHT\\t%s\\t%s\\t%s\\t%s\\t%s\\t%s\\t%s\\t%s\\t%s\\n' \"$revision\" \"$dirty\" \"$source_digest\" \"$manifest\" \"$lock\" \"$pixi\" \"$PATH\" \"$HOME\" \"$pixi_status\"; exit \"$pixi_status\""
    ));
}

#[test]
fn network_probes_mark_every_line() {
    assert_eq!(PROBE_SCRIPT.matches("INFERLAB_NETWORK\\t").count(), 3);
    let shown = parse_probe(&format!(
        "{NETWORK_MARKER}ROUTE\teth0\n{NETWORK_MARKER}ADDR\teth0\t192.0.2.1/24\n"
    ))
    .unwrap();
    assert_eq!(shown.default_route_interface.as_deref(), Some("eth0"));
    assert_eq!(shown.candidates, ["eth0"]);
}

#[test]
fn remote_scripts_are_one_word_for_the_shell() {
    let argv = ssh_argv("node-a", "echo it's");
    assert_eq!(argv[0], "ssh");
    assert_eq!(
        argv[argv.len() - 4..],
        ["node-a", "bash", "-lic", "'echo it'\"'\"'s'"]
    );
}

#[test]
fn remote_processes_run_the_executable_of_their_machine() -> Result<(), String> {
    let allocation = allocation();
    let processes = vec![
        process("a", "node-b", remote("b"), &["pixi", "run"], &allocation),
        process("b", "node-a", remote("a"), &["pixi", "run"], &allocation),
        process("c", "node-b", remote("b"), &["pixi", "run"], &allocation),
        process("d", "here", LaunchPlan::Local, &["pixi", "run"], &allocation),
    ];
    assert_eq!(
        remote_machines(&processes).entries,
        [("node-a".to_owned(), 1), ("node-b".to_owned(), 0)]
    );
    let answers = [
        ended(0, &observed("abc", 0), ""),
        ended(0, &observed("abc", 0), ""),
    ];
    let (processes, plans) = preflight_targets(processes, &answers, &snapshot(), "vllm")?;
    assert_eq!(processes[0].command.argv, ["/opt/pixi", "run"]);
    assert_eq!(processes[3].command.argv, ["pixi", "run"]);
    assert_eq!(
        processes[2].command.env.get("PATH").map(String::as_str),
        Some("/bin")
    );
    assert_eq!(
        processes[2].command.env.get("HOME").map(String::as_str),
        Some("/home/u")
    );
    assert!(processes[3].command.env.get("PATH").is_none());
    let plan = plans.get("node-a").ok_or("no plan")?;
    assert_eq!(plan.path, "/remote/ws");
    assert_eq!(plan.target, "a");
    Ok(())
}

#[test]
fn a_workspace_of_another_revision_is_refused() {
    let allocation = allocation();
    let refusal = |answer: Result<CommandOutput, String>| {
        let processes = vec![process("a", "node-a", remote("a"), &["pixi"], &allocation)];
        preflight_targets(processes, &[answer], &snapshot(), "vllm").err()
    };
    assert_eq!(
        refusal(ended(0, &observed("other", 0), "")).as_deref(),
        Some("machine \"node-a\" (a) workspace /remote/ws does not match the controller workspace")
    );
    assert_eq!(
        refusal(ended(1, &observed("abc", 1), " no env \n")).as_deref(),
        Some("machine \"node-a\" (a) does not have locked Pixi environment \"vllm\" materialized in /remote/ws; run `cd /remote/ws && /opt/pixi install --locked --environment vllm`: no env")
    );
    assert_eq!(
        refusal(ended(255, "", "down\n")).as_deref(),
        Some("machine \"node-a\" (a) exited with exit status: 255 before returning workspace preflight evidence: down")
    );
}

#[test]
fn a_machine_without_the_image_is_refused() -> Result<(), String> {
    let allocation = allocation();
    let ask = |stdout: &str| {
        let processes = vec![process("a", "node-a", remote("a"), &["docker"], &allocation)];
        preflight_container_targets(processes, &[ended(0, stdout, "")], "img", "repo/image:1")
    };
    assert_eq!(
        ask("INFERLAB_CONTAINER_PREFLIGHT\t0\t1\t2\tu\t/bin\t/home/u\t\n")
            .err()
            .as_deref(),
        Some("machine \"node-a\" (a) does not hold external image \"img\" (repo/image:1); run on that machine: docker pull repo/image:1")
    );
    let (processes, facts) =
        ask("INFERLAB_CONTAINER_PREFLIGHT\t1\t1\t2\tu\t/bin\t/home/u\t A B\n")?;
    assert_eq!(processes[0].command.argv, ["docker"]);
    assert_eq!(
        processes[0].command.env.get("HOME").map(String::as_str),
        Some("/home/u")
    );
    let fact = facts.get("node-a").ok_or("no facts")?;
    assert_eq!((fact.uid, fact.gid, fact.user.as_str()), (1, 2, "u"));
    assert_eq!(fact.present_pass_env, ["A", "B"]);
    Ok(())
}

#[test]
fn a_process_without_words_has_no_check_executable() {
    let allocation = allocation();
    let some = process("a", "node-a", remote("a"), &["pixi"], &allocation);
    let none = process("a", "node-a", remote("a"), &[], &allocation);
    assert_eq!(check_executable(&some), Ok("pixi"));
    assert_eq!(
        check_executable(&none).err().as_deref(),
        Some("process \"a\" has no executable")
    );
}
