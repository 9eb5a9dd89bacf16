use inferlab::dict::Dict;
use inferlab::process_group::{CommandOutput, StopTurn};
use inferlab::profiler::agent::{
    cleanup_target_agent, pgrep_argv, signal_argv, signal_pids, target_pid_alive, wait_for_pids,
    AgentAction, AgentEvent,
};
use inferlab::profiler::capture::{
    collection_already_finalized, finalization_succeeded, finalize_target, http_action,
    http_actions, post_request, post_status, ssh_control_script, stop_window, ArmNext, ArmStage,
    CaptureActionRecord, CaptureRecord, CaptureSession, CaptureStatus, ClientOutcome,
};
use inferlab::profiler::plan::{compile_plan, report_path};
use inferlab::profiler::target::{
    default_control_deadline, nsys_start_argv, nsys_stop_argv, prepare_process, session_name,
    ProcessPlace, ProfilerControl, ProfilerFinalization, ProfilerLaunch, ProfilerTargetRecord,
    WindowControlKind,
};
use inferlab::protocol::{
    CaptureMechanism, CaptureWindowControlEndpoint, EndpointAssignment, HttpMethod, ServeRoleKind,
};
use inferlab::resolve::allocation::{
    AllocationIdentity, LaunchPlan, ModelLocatorSource, ReadinessPlan, ResolvedProcessAllocation,
    RuntimeCacheNamespacePlan, RuntimeCachePlan, RuntimeCacheRootSource,
};
use inferlab::resolve::realization::{
    CaptureWindowActionPlan, CommandPlan, ProcessCapturePlan, ProcessCommandSource,
    ProcessIdentityPlan, ProcessPlan,
};
use inferlab::workspace::{LaunchBinding, NsysEscapes};

fn no_escapes() -> NsysEscapes {
    NsysEscapes {
        executable: None,
        launch_options: Vec::new(),
        start_options: Vec::new(),
        trace: Vec::new(),
        sampling: None,
        context_switch: None,
        env: Dict::new(),
    }
}

fn escapes() -> NsysEscapes {
    let mut env: Dict<String> = Dict::new();
    env.insert("NSYS_FIXTURE".to_owned(), "a b".to_owned());
    NsysEscapes {
        executable: Some("nsys-custom".to_owned()),
        launch_options: vec!["--cuda-graph-trace=node".to_owned()],
        start_options: vec!["--nic-metrics=true".to_owned()],
        trace: vec!["cuda".to_owned(), "nvtx".to_owned()],
        sampling: Some("cpu".to_owned()),
        context_switch: Some("process-tree".to_owned()),
        env,
    }
}

fn allocation() -> ResolvedProcessAllocation {
    ResolvedProcessAllocation {
        process: "prefill-0".to_owned(),
        identity: AllocationIdentity::ModelRank {
            role: "prefill".to_owned(),
            role_kind: ServeRoleKind::Prefill,
            replica: 0,
            rank: 0,
            rank_count: 1,
            model_locator: "/models/dsv4".to_owned(),
            model_locator_source: ModelLocatorSource::Fallback,
        },
        machine: "local".to_owned(),
        devices: vec![0],
        endpoint: None,
        ports: Dict::new(),
        launch: LaunchBinding::Local,
        dependencies: Vec::new(),
        runtime_cache: RuntimeCachePlan {
            storage_root: "/cache".to_owned(),
            storage_root_source: RuntimeCacheRootSource::WorkspaceDefault,
            namespace: RuntimeCacheNamespacePlan {
                workspace_source_digest: "source".to_owned(),
                pixi_environment: "vllm".to_owned(),
                image_id: None,
                machine: "local".to_owned(),
                process: "prefill-0".to_owned(),
            },
            path: "/cache/runtime".to_owned(),
        },
    }
}

fn window_action(path: &str) -> CaptureWindowActionPlan {
    CaptureWindowActionPlan {
        method: HttpMethod::Post,
        path: path.to_owned(),
        body: None,
        effective_url: format!("http://127.0.0.1:8000{path}"),
    }
}

fn process<'a>(
    allocation: &'a ResolvedProcessAllocation,
    escapes: &'a NsysEscapes,
) -> ProcessPlan<'a> {
    ProcessPlan {
        id: "prefill-0".to_owned(),
        identity: ProcessIdentityPlan::ModelRank {
            rank: 0,
            rank_count: 1,
        },
        command_source: ProcessCommandSource::Integration,
        machine: "local".to_owned(),
        launch: LaunchPlan::Local,
        launch_dependencies: Vec::new(),
        allocation,
        communication_interface: None,
        command: CommandPlan {
            argv: vec!["pixi".to_owned(), "run".to_owned(), "vllm".to_owned()],
            env: Dict::new(),
            explicit_env: Vec::new(),
            pass_env: Vec::new(),
            cwd: "/workspace/.inferlab".to_owned(),
        },
        launch_files: Vec::new(),
        readiness: ReadinessPlan::Http {
            path: "/v1/models".to_owned(),
            timeout_seconds: Some(60),
            attempt_timeout_seconds: 5,
        },
        endpoint: EndpointAssignment {
            host: "127.0.0.1".to_owned(),
            port: 8000,
        },
        capture_target: Some(ProcessCapturePlan {
            mechanism: CaptureMechanism::Nsys,
            window_control_endpoint: CaptureWindowControlEndpoint::ReplicaEntry,
            control_process_id: "prefill-0".to_owned(),
            start: window_action("/start_profile"),
            stop: window_action("/stop_profile"),
            escapes,
        }),
    }
}

fn place(record_id: &str) -> ProcessPlace<'_> {
    ProcessPlace {
        record_id,
        role_id: "prefill",
        replica_id: "prefill",
        replica_index: 0,
    }
}

fn prepared_target(record_id: &str, escapes: &NsysEscapes) -> Result<ProfilerTargetRecord, String> {
    let allocation = allocation();
    let process = process(&allocation, escapes);
    prepare_process(
        &place(record_id),
        &process,
        std::slice::from_ref(&process),
        60,
    )
    .map_err(|error| error.message())?
    .target
    .ok_or_else(|| "missing profiler target".to_owned())
}

#[test]
fn prepares_profiled_process_without_changing_the_serving_command() -> Result<(), String> {
    let allocation = allocation();
    let escapes = no_escapes();
    let process = process(&allocation, &escapes);
    let prepared = prepare_process(
        &place("20260701-120000-serve"),
        &process,
        std::slice::from_ref(&process),
        60,
    )
    .map_err(|error| error.message())?;
    let target = prepared.target.ok_or("missing profiler target")?;
    assert_eq!(target.role_id, "prefill");
    assert_eq!(target.finalization, ProfilerFinalization::NsysStop);
    assert_eq!(prepared.command.argv[..2], ["nsys", "launch"]);
    assert_eq!(
        prepared.command.argv[prepared.command.argv.len() - 3..],
        ["pixi", "run", "vllm"]
    );
    assert_eq!(
        target.runtime_root,
        "/workspace/.inferlab/runtime/20260701-120000-serve/prefill-0/profiles"
    );
    Ok(())
}

// Escape options splice ahead of the managed tail, the dedicated fields
// replace their managed defaults, and the env prefix leads the command.
#[test]
fn escapes_splice_ahead_of_the_managed_launch_tail() -> Result<(), String> {
    let target = prepared_target("serve", &escapes())?;
    assert_eq!(
        target.launch_prefix,
        [
            "env",
            "--",
            "NSYS_FIXTURE=a b",
            "nsys-custom",
            "launch",
            "--cuda-graph-trace=node",
            "--session-new",
            "inferlab-serve-prefill-0",
            "--trace=cuda,nvtx",
            "--wait=all",
        ]
    );
    assert_eq!(target.executable, "nsys-custom");
    assert_eq!(
        format!("{:?}", target.escapes),
        format!("{:?}", escapes()),
        "the escapes are kept as they were declared"
    );
    Ok(())
}

#[test]
fn escapes_splice_ahead_of_the_managed_start_tail() -> Result<(), String> {
    let target = prepared_target("serve", &escapes())?;
    assert_eq!(
        nsys_start_argv(&target, "/profiles/trace", 2),
        [
            "env",
            "--",
            "NSYS_FIXTURE=a b",
            "nsys-custom",
            "start",
            "--nic-metrics=true",
            "--session=inferlab-serve-prefill-0",
            "--sample=cpu",
            "--cpuctxsw=process-tree",
            "--force-overwrite=true",
            "--export=none",
            "--output=/profiles/trace",
            "--capture-range=cudaProfilerApi",
            "--capture-range-end=repeat:2:async",
        ]
    );
    Ok(())
}

// An escape value carrying shell metacharacters must reach the remote
// shell as one word.
#[test]
fn ssh_control_script_quotes_escape_values_with_metacharacters() {
    let script = ssh_control_script(
        "/work dir",
        &[
            "env".to_owned(),
            "--".to_owned(),
            "NSYS_OPTS=a b;c".to_owned(),
            "nsys".to_owned(),
            "start".to_owned(),
        ],
    );
    assert_eq!(
        script,
        "cd '/work dir' && exec 'env' '--' 'NSYS_OPTS=a b;c' 'nsys' 'start'"
    );
}

#[test]
fn static_range_plan_maps_windows_to_one_based_reports() -> Result<(), String> {
    let target = prepared_target("serve", &no_escapes())?;
    let plan = compile_plan(
        "serve",
        "bench-c8k1k",
        &["c1".to_owned(), "c32".to_owned()],
        &[target],
    )
    .map_err(|error| error.message())?;
    assert_eq!(plan.control, WindowControlKind::FrameworkRange);
    assert_eq!(plan.windows[0].range_index, Some(1));
    assert_eq!(plan.windows[1].range_index, Some(2));
    assert_eq!(plan.targets[0].expected_range_count, Some(2));
    assert!(plan.targets[0].reports[1].ends_with("trace.2.nsys-rep"));
    Ok(())
}

fn target() -> ProfilerTargetRecord {
    ProfilerTargetRecord {
        process_id: "serve".to_owned(),
        role_id: "serve".to_owned(),
        replica_id: "serve".to_owned(),
        replica_index: 0,
        rank: 0,
        session: "inferlab-fixture".to_owned(),
        executable: "true".to_owned(),
        launch: ProfilerLaunch::Local,
        finalization: ProfilerFinalization::NsysStop,
        control: ProfilerControl::Http {
            process_id: "serve".to_owned(),
            endpoint: EndpointAssignment {
                host: "127.0.0.1".to_owned(),
                port: 1,
            },
            start_path: "/start_profile".to_owned(),
            stop_path: "/stop_profile".to_owned(),
            deadline_seconds: 60,
        },
        supported_window_controls: vec![WindowControlKind::FrameworkRange],
        command_cwd: "/work".to_owned(),
        runtime_root: "/work/profiles".to_owned(),
        launch_prefix: Vec::new(),
        escapes: no_escapes(),
    }
}

fn ended(exit_code: i32, stdout: &str, stderr: &str) -> Result<CommandOutput, String> {
    Ok(CommandOutput {
        exit_code: Some(exit_code),
        success: exit_code == 0,
        status: format!("exit status: {exit_code}"),
        stdout: stdout.as_bytes().to_vec(),
        stderr: stderr.as_bytes().to_vec(),
    })
}

#[test]
fn missing_range_report_is_capture_failure_evidence() -> Result<(), String> {
    let plan = compile_plan(
        "serve",
        "bench",
        &["c1".to_owned()],
        std::slice::from_ref(&target()),
    )
    .map_err(|error| error.message())?;
    let recorded = compile_plan("serve", "bench", &["c1".to_owned()], &[target()])
        .map_err(|error| error.message())?;
    let mut capture = CaptureSession {
        targets: vec![target()],
        record: CaptureRecord {
            status: CaptureStatus::Running,
            plan: Some(recorded),
            arm: Vec::new(),
            windows: Vec::new(),
            finalization: Vec::new(),
            reports: Vec::new(),
            error: None,
        },
        plan,
        stop_failure: None,
    };

    capture.verify_reports(&[vec![ended(1, "", "")]]);

    assert_eq!(capture.record.status, CaptureStatus::Failed);
    assert!(!capture.record.reports[0].verified);
    assert!(capture
        .record
        .error
        .as_deref()
        .is_some_and(|error| error.contains("missing")));
    Ok(())
}

#[test]
fn session_names_are_one_word() {
    assert_eq!(
        session_name("2026.01 serve", "rank/0"),
        "inferlab-2026-01-serve-rank-0"
    );
    assert_eq!(
        nsys_stop_argv("nsys", "inferlab-a-b"),
        ["nsys", "stop", "--session=inferlab-a-b"]
    );
    assert_eq!(default_control_deadline(), 60);
}

#[test]
fn an_unknown_control_process_is_refused() {
    let allocation = allocation();
    let escapes = no_escapes();
    let process = process(&allocation, &escapes);
    let refused = prepare_process(&place("serve"), &process, &[], 60);
    assert_eq!(
        refused.err().map(|error| error.message()),
        Some(
            "profiling target \"prefill-0\" references unknown control process \"prefill-0\""
                .to_owned()
        )
    );
}

#[test]
fn a_process_that_is_not_captured_is_launched_as_it_is() {
    let allocation = allocation();
    let escapes = no_escapes();
    let mut process = process(&allocation, &escapes);
    process.capture_target = None;
    let prepared = prepare_process(&place("serve"), &process, &[], 60).unwrap();
    assert!(prepared.target.is_none());
    assert_eq!(prepared.command.argv, ["pixi", "run", "vllm"]);
}

#[test]
fn report_paths_number_their_ranges() {
    assert_eq!(report_path("/p/trace", Some(3)), "/p/trace.3.nsys-rep");
    assert_eq!(report_path("/p/trace", None), "/p/trace.nsys-rep");
}

fn session() -> CaptureSession {
    match CaptureSession::open(Ok(vec![target()]), "serve", "bench", &["c1".to_owned()]) {
        Ok(session) => session,
        Err(record) => panic!("{record:?}"),
    }
}

fn posted(operation: &str, result: Result<u16, String>, start: bool) -> CaptureActionRecord {
    let requests = http_actions(&[target()], start);
    assert_eq!(requests[0].operation, operation);
    http_action(&requests[0], &result)
}

#[test]
fn a_failed_close_alone_does_not_fail_a_capture() {
    let mut session = session();
    let start_operation = http_actions(&[target()], true)[0].operation.clone();
    let stop_operation = http_actions(&[target()], false)[0].operation.clone();
    let start = vec![posted(&start_operation, Ok(200), true)];
    let stop = vec![posted(&stop_operation, Err("connection reset".to_owned()), false)];
    session
        .run_window("c1", start, ClientOutcome::Succeeded, stop)
        .unwrap();
    assert!(session.record.error.is_none());
    assert!(session.stop_failure.is_some());
    session.verify_reports(&[vec![ended(0, "", "")]]);
    let record = session.finish();
    assert!(record.succeeded(), "{record:?}");
    assert!(record.reports[0].verified);
}

#[test]
fn the_first_fault_is_kept() {
    let mut session = session();
    session.fail("first".to_owned());
    session.fail("second".to_owned());
    let record = session.finish();
    assert_eq!(record.status, CaptureStatus::Failed);
    assert_eq!(record.error.as_deref(), Some("first"));
    assert!(!record.succeeded());
}

#[test]
fn an_unknown_window_is_refused() {
    let mut session = session();
    assert!(session
        .run_window("c9", Vec::new(), ClientOutcome::Succeeded, Vec::new())
        .is_err());
}

#[test]
fn a_capture_without_targets_is_a_failed_record() {
    let refused =
        CaptureSession::open(Err("server is stopped".to_owned()), "serve", "bench", &[]);
    match refused {
        Ok(_) => panic!("nothing can be captured"),
        Err(record) => {
            assert_eq!(record.status, CaptureStatus::Failed);
            assert!(record.error.is_some_and(|error| error.contains("server is stopped")));
        }
    }
}

#[test]
fn each_controller_is_asked_once() {
    let requests = http_actions(&[target(), target()], true);
    assert_eq!(requests.len(), 1);
    assert_eq!(
        post_request(&requests[0]),
        "POST /start_profile HTTP/1.1\r\nHost: 127.0.0.1:1\r\nContent-Length: 0\r\nConnection: close\r\n\r\n"
    );
}

#[test]
fn statuses_are_read_from_the_first_line() {
    assert_eq!(post_status("HTTP/1.1 204 No Content"), Ok(204));
    assert_eq!(
        post_status("garbage"),
        Err("invalid profiler HTTP status line \"garbage\"".to_owned())
    );
}

#[test]
fn a_collection_that_already_ended_is_finalized() {
    let failed = finalize_target(
        &target(),
        &ended(1, "", "Collection stop is not allowed in this state."),
    );
    assert!(!failed.succeeded());
    assert!(collection_already_finalized(&failed));
    assert!(finalization_succeeded(&failed));
    let broken = finalize_target(&target(), &ended(1, "", "no such session"));
    assert!(!finalization_succeeded(&broken));
    assert!(broken.error().is_some());
}

#[test]
fn agents_are_asked_then_killed_and_seen_gone() {
    assert_eq!(pgrep_argv(&target())[0], "pgrep");
    assert_eq!(signal_argv("-TERM", 42), ["kill", "-TERM", "--", "42"]);
    let found = cleanup_target_agent(
        &target(),
        None,
        AgentEvent::Searched {
            answer: ended(0, "41\n42\n", ""),
        },
    );
    assert!(matches!(&found, AgentAction::Ask { pids } if *pids == [41, 42]));
    let kill = cleanup_target_agent(
        &target(),
        Some(found),
        AgentEvent::Asked {
            sent: Ok(true),
            stopped: Ok(false),
        },
    );
    assert!(matches!(&kill, AgentAction::Kill { pids, term_sent: true } if *pids == [41, 42]));
    let done = cleanup_target_agent(
        &target(),
        Some(kill),
        AgentEvent::Killed {
            sent: Ok(true),
            stopped: Ok(true),
        },
    );
    match done {
        AgentAction::Done { record } => {
            assert!(record.verified && record.term_sent && record.kill_sent);
            assert_eq!(record.pids, [41, 42]);
        }
        _ => panic!("the cleanup is over"),
    }
}

#[test]
fn no_agent_is_a_verified_cleanup() {
    match cleanup_target_agent(
        &target(),
        None,
        AgentEvent::Searched {
            answer: ended(1, "", ""),
        },
    ) {
        AgentAction::Done { record } => assert!(record.verified && record.already_exited),
        _ => panic!("there is nothing to stop"),
    }
    match cleanup_target_agent(
        &target(),
        None,
        AgentEvent::Searched {
            answer: Err("absent".to_owned()),
        },
    ) {
        AgentAction::Done { record } => {
            assert!(!record.verified);
            assert_eq!(record.error.as_deref(), Some("failed to launch pgrep: absent"));
        }
        _ => panic!("nothing is known of the agent"),
    }
}

#[test]
fn liveness_is_the_exit_of_the_probe() {
    assert_eq!(target_pid_alive(7, &ended(0, "", "")), Ok(true));
    assert_eq!(target_pid_alive(7, &ended(1, "", "")), Ok(false));
    assert_eq!(
        target_pid_alive(7, &ended(2, "", " denied \n")),
        Err("failed to verify profiler PID 7: denied".to_owned())
    );
    assert!(signal_pids(&[ended(0, "", "")]).is_ok());
}

#[test]
fn targets_are_prepared_then_armed() {
    let mut session = session();
    let argv = session.arm_argv(0, ArmStage::Prepare).unwrap();
    assert_eq!(argv[..2], ["mkdir", "-p"]);
    let next = session.arm_range_collection(0, ArmStage::Prepare, argv, &ended(0, "", ""));
    assert_eq!(
        next,
        ArmNext::Run {
            target: 0,
            stage: ArmStage::Start
        }
    );
    let argv = session.arm_argv(0, ArmStage::Start).unwrap();
    assert!(argv.contains(&"--capture-range-end=repeat:1:async".to_owned()));
    let next = session.arm_range_collection(0, ArmStage::Start, argv, &ended(0, "", ""));
    assert_eq!(next, ArmNext::Armed);
    assert_eq!(session.record.arm.len(), 2);
    assert!(session.record.error.is_none());
}

#[test]
fn a_target_that_does_not_arm_fails_the_capture() {
    let mut session = session();
    let argv = session.arm_argv(0, ArmStage::Prepare).unwrap();
    let next = session.arm_range_collection(0, ArmStage::Prepare, argv, &ended(1, "", "full"));
    assert_eq!(next, ArmNext::Failed);
    assert_eq!(session.record.status, CaptureStatus::Failed);
    assert_eq!(session.record.error.as_deref(), Some("full"));
}

#[test]
fn a_collection_that_does_not_end_fails_the_capture() {
    let mut session = session();
    session.finalize_collections(&[ended(1, "", "stuck")]);
    assert_eq!(session.record.finalization.len(), 1);
    assert_eq!(session.record.error.as_deref(), Some("stuck"));
}

#[test]
fn only_opened_windows_are_closed() {
    let opened = vec![posted("start-range", Ok(200), true)];
    assert_eq!(stop_window(&[target()], &opened).len(), 1);
    assert_eq!(stop_window(&[target()], &opened)[0].operation, "stop-range");
    let refused = vec![posted("start-range", Ok(500), true)];
    assert!(stop_window(&[target()], &refused).is_empty());
}

#[test]
fn agents_are_awaited_until_the_deadline() {
    assert!(matches!(
        wait_for_pids(&[Ok(false), Ok(false)], 0, 10),
        StopTurn::Over(true)
    ));
    assert!(matches!(
        wait_for_pids(&[Ok(true), Ok(false)], 10, 10),
        StopTurn::Over(false)
    ));
    assert!(matches!(
        wait_for_pids(&[Ok(true)], 0, 10),
        StopTurn::Sleep(_)
    ));
    assert!(matches!(
        wait_for_pids(&[Err("lost".to_owned()), Ok(true)], 0, 10),
        StopTurn::Failed(error) if error == "lost"
    ));
}
