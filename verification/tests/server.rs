use inferlab::error::InferlabError;
use inferlab::recipe::server_cleanup_summary;
use inferlab::server::checks::{
    remote_check_message, run_remote_checks, CheckOutcome, PlannedEnvironmentCheck,
};
use inferlab::process_group::{goes_on, CommandOutput};
use inferlab::resolve::composition::CheckRealization;
use inferlab::server::cleanup::{CleanupEvidence, CleanupTrigger};
use inferlab::server::handle::{HostProcessHandle, ProcessHandle, ProcessStatus};
use inferlab::server::hardware::{DeviceHardwareEvidence, MachineHardwareEvidence};
use inferlab::server::launch::LaunchFailure;
use inferlab::server::readiness::{readiness_failure, ReadinessEvidence, ReadinessFailureKind};
use inferlab::server::record::{
    process_order, relative_record_path, server_record_id, AdapterExchanges, FailurePhase,
    NewServer, ServerRecord, ServerStatus, SCHEMA_VERSION,
};
use inferlab::server::shutdown::{
    acquire_operation, begin_stop, logs_with_runtime, needs_status, operation_lock_path,
    require_running,
    status_with_runtime, LockOutcome, Shutdown, StopAction, StopEvent,
};
use inferlab::server::startup::{
    stores_between, ChecksOutcome, PreflightPlan, StartAction, StartEvent, Startup,
};
use inferlab::server::targets::{container_preflight, remote_runtime_dir, workspace_preflight};
use inferlab::time_bound::{OperationBound, OperationTerminalCause};

fn exchanges() -> AdapterExchanges {
    let bound = OperationBound::unbounded(0);
    AdapterExchanges {
        plan_request_sha256: "a".repeat(64),
        plan_response_sha256: "b".repeat(64),
        plan_timing: Some(bound.timing(0, "plan", OperationTerminalCause::Succeeded)),
        render_request_sha256: "c".repeat(64),
        render_response_sha256: "d".repeat(64),
        render_timing: Some(bound.timing(0, "render", OperationTerminalCause::Succeeded)),
    }
}

fn record() -> ServerRecord {
    ServerRecord::begin(
        "2026-serve-server-1".to_owned(),
        "0.12.0",
        7,
        &["rank-000".to_owned(), "rank-001".to_owned()],
        exchanges(),
        None,
    )
    .expect("the processes are distinct")
}

fn fake_handle(pid: u32) -> ProcessHandle {
    ProcessHandle::Local(HostProcessHandle {
        leader_pid: pid,
        process_group: pid,
        leader_start_time_ticks: 1,
        container: None,
    })
}

fn cleaned(trigger: CleanupTrigger, verified: bool) -> CleanupEvidence {
    CleanupEvidence {
        trigger,
        elapsed_ms: 0,
        status_deadline_ms: 2_000,
        term_grace_ms: 2_000,
        kill_grace_ms: 10_000,
        reap_grace_ms: None,
        remote_deadline_ms: None,
        verified,
        already_exited: false,
        forced: false,
        signals: Vec::new(),
        error: if verified {
            None
        } else {
            Some("members stay".to_owned())
        },
        container_removal: None,
    }
}

fn ready() -> ReadinessEvidence {
    ReadinessEvidence::ProcessAlive {
        ready_unix_ms: 1,
        timing: OperationBound::unbounded(0).timing(
            0,
            "before_process_alive_check",
            OperationTerminalCause::Succeeded,
        ),
    }
}

fn hardware(index: u32) -> MachineHardwareEvidence {
    MachineHardwareEvidence {
        driver_version: "999.99".to_owned(),
        devices: vec![DeviceHardwareEvidence {
            index,
            model: "Fake GPU".to_owned(),
            memory_total_mib: 96_000,
            uuid: format!("GPU-fake-{index}"),
        }],
    }
}

fn names(words: &[&str]) -> Vec<String> {
    words.iter().map(|word| (*word).to_owned()).collect()
}

fn probes() -> PreflightPlan {
    PreflightPlan {
        checks: false,
        hosts: Vec::new(),
        targets: names(&["node-0", "node-1"]),
    }
}

/// Drives a start over two processes on two machines; `spawns` are handed out in
/// order, and `waits` say which processes become ready.
fn start(
    startup: &mut Startup,
    spawns: Vec<Result<ProcessHandle, LaunchFailure>>,
    waits: &[bool],
    interrupt_at_wait: bool,
    terminated: &mut Vec<usize>,
) -> StartAction {
    let mut spawns = spawns.into_iter();
    let mut waited: usize = 0;
    let mut action = startup.action();
    loop {
        let event = match action {
            StartAction::Probe { target } => StartEvent::Hardware {
                outcome: Ok(hardware(target as u32)),
            },
            StartAction::Prepare { .. } => StartEvent::Prepared {
                interrupted: false,
                prepared: Ok(None),
            },
            StartAction::Spawn { .. } => StartEvent::Spawned {
                outcome: spawns.next().unwrap_or_else(|| {
                    Err(LaunchFailure::before_launch(
                        "missing fake spawn result".to_owned(),
                    ))
                }),
            },
            StartAction::Store => StartEvent::Stored {
                outcome: Ok(()),
                interrupted: false,
            },
            StartAction::Await { .. } => StartEvent::Awaited {
                interrupted: interrupt_at_wait,
            },
            StartAction::Wait { .. } => {
                let good = waits.get(waited).copied().unwrap_or(true);
                waited += 1;
                StartEvent::Waited {
                    outcome: if good {
                        Ok(ready())
                    } else {
                        Err(readiness_failure(
                            ReadinessFailureKind::Timeout,
                            "not ready".to_owned(),
                        ))
                    },
                }
            }
            StartAction::Settle => StartEvent::Settled { interrupted: false },
            StartAction::Terminate { process } => {
                terminated.push(process);
                StartEvent::Terminated {
                    cleanup: cleaned(CleanupTrigger::StartupRollback, true),
                }
            }
            StartAction::Sync { .. } => StartEvent::Synced {
                error: None,
                elapsed_ms: 3,
            },
            StartAction::Persist => StartEvent::Persisted { clock: Ok(99) },
            other => return other,
        };
        action = startup.start_with_runtime(event);
    }
}

#[test]
fn multi_role_launch_failure_rolls_back_the_first_role() {
    let mut startup = Startup::new(record(), probes());
    let mut terminated = Vec::new();
    let last = start(
        &mut startup,
        vec![
            Ok(fake_handle(41)),
            Err(LaunchFailure::ownership_unknown(
                "node-b launch failed".to_owned(),
            )),
        ],
        &[],
        false,
        &mut terminated,
    );

    assert!(matches!(last, StartAction::Report));
    assert_eq!(terminated, [0]);
    let record = startup.record;
    assert_eq!(record.status, ServerStatus::Failed);
    assert_eq!(record.processes, ["rank-000", "rank-001"]);
    // The probe ran per hosting machine before any spawn, so even this
    // failed multi-role launch carries per-role hardware evidence keyed
    // to each role's assigned device.
    let probed: Vec<(&str, Vec<u32>)> = record
        .hardware
        .iter()
        .map(|(machine, entry)| {
            (
                machine.as_str(),
                entry.devices.iter().map(|device| device.index).collect(),
            )
        })
        .collect();
    assert_eq!(probed, [("node-0", vec![0]), ("node-1", vec![1])]);
    assert_eq!(record.process("rank-000").unwrap().cleanup.len(), 1);
    assert!(record.process("rank-001").unwrap().handle.is_none());
    assert!(!record.process("rank-001").unwrap().cleanup[0].verified);
    assert!(record.finished_unix_ms.is_none());
}

#[test]
fn server_record_keys_runtime_evidence_without_repeating_allocation() {
    let record = record();
    assert_eq!(record.schema_version, 3);
    assert_eq!(SCHEMA_VERSION, 3);
    assert_eq!(record.adapter_operations.len(), 2);
    assert_eq!(record.process_evidence.len(), 2);
    let first = record.process("rank-000").unwrap();
    assert!(first.stdout.starts_with(".inferlab/records/2026-serve-server-1/"));
    assert!(first.stderr.starts_with(".inferlab/records/2026-serve-server-1/"));
    assert_ne!(first.stdout, first.stderr);
    assert!(matches!(
        record.process("rank-009"),
        Err(InferlabError::ServerLifecycle { message })
            if message == "server record \"2026-serve-server-1\" has no runtime evidence for process \"rank-009\""
    ));
}

#[test]
fn a_started_server_has_every_process_ready() {
    let mut startup = Startup::new(record(), probes());
    let mut terminated = Vec::new();
    let last = start(
        &mut startup,
        vec![Ok(fake_handle(41)), Ok(fake_handle(42))],
        &[],
        false,
        &mut terminated,
    );
    assert!(matches!(last, StartAction::Started));
    assert!(terminated.is_empty());
    assert_eq!(startup.record.status, ServerStatus::Running);
    assert!(startup
        .record
        .process_evidence
        .iter()
        .all(|evidence| evidence.handle.is_some() && evidence.readiness.is_some()));
}

#[test]
fn an_unready_server_is_undone_in_reverse_order() {
    let mut startup = Startup::new(record(), probes());
    let mut terminated = Vec::new();
    let last = start(
        &mut startup,
        vec![Ok(fake_handle(41)), Ok(fake_handle(42))],
        &[true, false],
        false,
        &mut terminated,
    );
    assert!(matches!(last, StartAction::Report));
    assert_eq!(terminated, [1, 0]);
    assert_eq!(startup.record.finished_unix_ms, Some(99));
    let failure = startup.record.failure.expect("the failure is kept");
    assert_eq!(failure.phase, FailurePhase::Readiness);
    assert_eq!(failure.process_id.as_deref(), Some("rank-001"));
    assert!(startup.message.ends_with("; record 2026-serve-server-1"));
}

#[test]
fn an_interruption_ends_the_start() {
    let mut startup = Startup::new(record(), probes());
    let mut terminated = Vec::new();
    let last = start(
        &mut startup,
        vec![Ok(fake_handle(41)), Ok(fake_handle(42))],
        &[],
        true,
        &mut terminated,
    );
    assert!(matches!(last, StartAction::Report));
    assert_eq!(terminated, [1, 0]);
    assert_eq!(
        startup.record.failure.expect("the failure is kept").phase,
        FailurePhase::Interrupted
    );
}

#[test]
fn the_preflight_comes_before_any_launch() {
    let mut startup = Startup::new(
        record(),
        PreflightPlan {
            checks: true,
            hosts: names(&["node-1"]),
            targets: names(&["node-0", "node-1"]),
        },
    );
    let passed = || -> ChecksOutcome { Ok((Vec::new(), None)) };
    let mut actions = vec![startup.action()];
    for event in [
        StartEvent::LocalChecks { outcome: passed() },
        StartEvent::RemoteChecks { outcome: passed() },
        StartEvent::Hardware {
            outcome: Ok(hardware(0)),
        },
        StartEvent::Hardware {
            outcome: Ok(hardware(1)),
        },
    ] {
        actions.push(startup.start_with_runtime(event));
    }
    assert_eq!(
        actions,
        [
            StartAction::CheckLocal,
            StartAction::CheckRemote { host: 0 },
            StartAction::Probe { target: 0 },
            StartAction::Probe { target: 1 },
            StartAction::Prepare { process: 0 },
        ]
    );
    let probed: Vec<&str> = startup
        .record
        .hardware
        .iter()
        .map(|(machine, _)| machine.as_str())
        .collect();
    assert_eq!(probed, ["node-0", "node-1"]);
}

#[test]
fn checks_and_the_last_probe_are_stored() {
    let first = StartAction::Probe { target: 0 };
    let second = StartAction::Probe { target: 1 };
    let prepare = StartAction::Prepare { process: 0 };
    assert!(stores_between(StartAction::CheckLocal, first));
    assert!(stores_between(StartAction::CheckRemote { host: 0 }, prepare));
    assert!(!stores_between(StartAction::CheckLocal, StartAction::Persist));
    assert!(!stores_between(first, second));
    assert!(stores_between(second, prepare));
    assert!(!stores_between(second, StartAction::Persist));
    assert!(!stores_between(prepare, StartAction::Spawn { process: 0 }));
}

#[test]
fn a_stop_without_a_clock_is_told_and_not_stored() {
    let mut shutdown = Shutdown::new(running());
    let mut action = shutdown.action();
    while action != StopAction::Persist {
        let event = match action {
            StopAction::Terminate { .. } => StopEvent::Terminated {
                cleanup: cleaned(CleanupTrigger::Stop, true),
            },
            _ => StopEvent::Synced {
                error: None,
                elapsed_ms: 2,
            },
        };
        action = shutdown.stop_with_runtime(event);
    }
    let action = shutdown.stop_with_runtime(StopEvent::Persisted {
        clock: Err("clock is off".to_owned()),
    });
    assert_eq!(action, StopAction::Report);
    assert!(!shutdown.stores_at_end());
    assert_eq!(shutdown.message, "system clock is before Unix epoch: clock is off");
}

#[test]
fn a_failed_preflight_launches_nothing() {
    let mut startup = Startup::new(record(), probes());
    let action = startup.start_with_runtime(StartEvent::Hardware {
        outcome: Ok(hardware(0)),
    });
    assert_eq!(action, StartAction::Probe { target: 1 });
    let action = startup.start_with_runtime(StartEvent::Hardware {
        outcome: Err("no probe rows".to_owned()),
    });
    assert!(matches!(action, StartAction::Persist));
    assert_eq!(startup.started, 0);
    assert!(!startup.is_unstored());
    startup.start_with_runtime(StartEvent::Persisted { clock: Ok(120) });
    assert!(startup.stores_at_end());
    assert_eq!(startup.record.hardware.len(), 1);
    assert_eq!(
        startup.message,
        "device hardware probe failed on machine \"node-1\": no probe rows; record 2026-serve-server-1"
    );
    assert_eq!(
        startup.record.failure.as_ref().map(|failure| failure.phase),
        Some(FailurePhase::Preflight)
    );
}

fn running() -> ServerRecord {
    let mut startup = Startup::new(record(), probes());
    let mut terminated = Vec::new();
    start(
        &mut startup,
        vec![Ok(fake_handle(41)), Ok(fake_handle(42))],
        &[],
        false,
        &mut terminated,
    );
    startup.record
}

fn stop(shutdown: &mut Shutdown, verified: bool, terminated: &mut Vec<usize>) -> StopAction {
    let mut action = shutdown.action();
    loop {
        let event = match action {
            StopAction::Note { .. } => StopEvent::Noted,
            StopAction::Terminate { process } => {
                terminated.push(process);
                StopEvent::Terminated {
                    cleanup: cleaned(CleanupTrigger::Stop, verified),
                }
            }
            StopAction::Sync { .. } => StopEvent::Synced {
                error: None,
                elapsed_ms: 2,
            },
            StopAction::Persist => StopEvent::Persisted { clock: Ok(120) },
            other => return other,
        };
        action = shutdown.stop_with_runtime(event);
    }
}

#[test]
fn a_stopped_server_left_nothing_running() {
    let mut shutdown = Shutdown::new(running());
    let mut terminated = Vec::new();
    let last = stop(&mut shutdown, true, &mut terminated);
    assert!(matches!(last, StopAction::Stopped));
    assert_eq!(terminated, [1, 0]);
    assert_eq!(shutdown.record.status, ServerStatus::Stopped);
    assert_eq!(shutdown.record.finished_unix_ms, Some(120));
}

#[test]
fn stopping_twice_is_stopping_once() {
    let Ok(mut shutdown) = begin_stop(running()) else {
        panic!("the server runs");
    };
    let mut terminated = Vec::new();
    stop(&mut shutdown, true, &mut terminated);
    let stopped = format!("{:?}", shutdown.record);
    match begin_stop(shutdown.record) {
        Err(record) => assert_eq!(format!("{record:?}"), stopped),
        Ok(_) => panic!("the server is finished"),
    }
}

#[test]
fn an_uncertain_stop_leaves_the_server_unfinished() {
    let mut shutdown = Shutdown::new(running());
    let mut terminated = Vec::new();
    let last = stop(&mut shutdown, false, &mut terminated);
    assert!(matches!(last, StopAction::Report));
    assert_eq!(shutdown.record.status, ServerStatus::Failed);
    assert!(shutdown.record.finished_unix_ms.is_none());
}

fn seen(alive: bool) -> Option<ProcessStatus> {
    Some(ProcessStatus {
        queried: true,
        alive,
        error: None,
    })
}

#[test]
fn a_server_is_alive_where_every_process_is() {
    let record = running();
    assert!(needs_status(&record, 0) && needs_status(&record, 1));
    let report = status_with_runtime(record, vec![seen(true), seen(true)]);
    assert!(report.observed_alive);
    assert!(require_running(&report).is_ok());
    let report = status_with_runtime(running(), vec![seen(true), seen(false)]);
    assert!(!report.observed_alive);
    assert_eq!(
        require_running(&report).err().map(|error| error.message()),
        Some(
            "not every process in running server record \"2026-serve-server-1\" is observed alive"
                .to_owned()
        )
    );
}

#[test]
fn a_server_that_does_not_run_is_told_by_its_status() {
    let mut shutdown = Shutdown::new(running());
    let mut terminated = Vec::new();
    stop(&mut shutdown, true, &mut terminated);
    let report = status_with_runtime(shutdown.record, vec![None, None]);
    assert_eq!(
        require_running(&report).err().map(|error| error.message()),
        Some("server record \"2026-serve-server-1\" is Stopped, not running".to_owned())
    );
}

#[test]
fn logs_are_reported_by_process() {
    let record = running();
    let report = logs_with_runtime("/w", &record, &[Ok(()), Ok(())]).unwrap();
    assert_eq!(report.processes.len(), 2);
    assert_eq!(report.processes[0].id, "rank-000");
    assert!(report.record_dir.ends_with("2026-serve-server-1"));
    assert!(
        logs_with_runtime("/w", &record, &[Ok(()), Err("no route".to_owned())])
            .is_err_and(|error| error.message().contains("no route"))
    );
}

#[test]
fn one_operation_holds_a_server() {
    let path = operation_lock_path("/w", "2026-serve-server-1");
    assert!(path.starts_with("/w/.inferlab/records/2026-serve-server-1/"));
    assert!(acquire_operation("s", &path, &LockOutcome::Taken).is_ok());
    assert!(matches!(
        acquire_operation("s", &path, &LockOutcome::Held),
        Err(InferlabError::ServerBusy { id }) if id == "s"
    ));
    assert!(matches!(
        acquire_operation(
            "s",
            &path,
            &LockOutcome::Failed {
                error: "denied".to_owned()
            }
        ),
        Err(InferlabError::RecordIo { .. })
    ));
}

#[test]
fn records_are_named_by_their_server() {
    let new = NewServer {
        server: "qwen",
        case: None,
        requested_id: None,
        pid: 12,
        version: "0.12.0",
    };
    assert_eq!(
        server_record_id(&new, 0).unwrap(),
        "1970-01-01T00-00-00.000Z-serve-qwen-12"
    );
    let named = NewServer {
        requested_id: Some("../up"),
        ..new
    };
    assert!(server_record_id(&named, 0).is_err());
    assert_eq!(
        relative_record_path("id", "record.json"),
        ".inferlab/records/id/record.json"
    );
}

#[test]
fn processes_stand_once_in_their_resolved_order() {
    assert_eq!(
        process_order("s", &names(&["b", "a"]), &names(&["a", "b"])).unwrap(),
        ["b", "a"]
    );
    assert!(process_order("s", &names(&["b"]), &names(&["a", "b"])).is_err());
    assert!(ServerRecord::begin(
        "s".to_owned(),
        "1",
        0,
        &names(&["a", "a"]),
        exchanges(),
        None
    )
    .is_err());
}

#[test]
fn preflight_failures_are_told_by_their_kind() {
    assert_eq!(
        workspace_preflight::<()>(Err("drift".to_owned()))
            .err()
            .map(|error| error.message()),
        Some("remote execution preflight failed: drift".to_owned())
    );
    assert!(matches!(
        container_preflight::<()>(Err("absent".to_owned())),
        Err(InferlabError::ImageSelection { message })
            if message == "remote container preflight failed: absent"
    ));
    assert_eq!(
        remote_runtime_dir("/w", "record", "rank-000"),
        "/w/runtime/record/rank-000"
    );
}

fn check(id: &str) -> PlannedEnvironmentCheck {
    PlannedEnvironmentCheck {
        id: id.to_owned(),
        script: "true".to_owned(),
        repair_hint: Some("install it".to_owned()),
    }
}

fn ended(exit_code: i32, stdout: &str, stderr: &str) -> Result<CommandOutput, String> {
    Ok(CommandOutput {
        exit_code: Some(exit_code),
        success: exit_code == 0,
        status: format!("exit status: {exit_code}"),
        stdout: stdout.as_bytes().to_vec(),
        stderr: stderr.as_bytes().to_vec(),
    })
}

#[test]
fn the_first_failed_check_ends_the_checks() {
    let (evidence, failure) = run_remote_checks(
        &[check("cuda"), check("nccl")],
        "node-0",
        &[ended(0, "", ""), ended(1, "", "no nccl\n")],
    )
    .unwrap();
    assert_eq!(evidence.len(), 2);
    assert_eq!(evidence[0].outcome, CheckOutcome::Passed);
    assert_eq!(evidence[1].outcome, CheckOutcome::Failed);
    let failure = failure.expect("a check failed");
    assert_eq!(failure.id, "nccl");
    let text = remote_check_message(&failure, "node-0", "vllm");
    assert!(text.contains("node-0") && text.contains("no nccl"), "{text}");
    let mut startup = Startup::new(
        record(),
        PreflightPlan {
            checks: true,
            hosts: names(&["node-0"]),
            targets: names(&["node-0", "node-1"]),
        },
    );
    assert_eq!(startup.action(), StartAction::CheckLocal);
    let action = startup.start_with_runtime(StartEvent::LocalChecks {
        outcome: Ok((Vec::new(), None)),
    });
    assert_eq!(action, StartAction::CheckRemote { host: 0 });
    let outcome: ChecksOutcome = Ok((evidence, Some(text.clone())));
    let action = startup.start_with_runtime(StartEvent::RemoteChecks { outcome });
    assert!(matches!(action, StartAction::Persist));
    assert_eq!(startup.record.environment_checks.len(), 2);
    assert!(startup
        .record
        .failure
        .is_some_and(|failure| failure.message.contains("no nccl")));
}

#[test]
fn checks_that_pass_are_all_run() {
    let (evidence, failure) = run_remote_checks(
        &[check("cuda"), check("nccl")],
        "node-0",
        &[ended(0, "", ""), ended(0, "", "")],
    )
    .unwrap();
    assert_eq!(evidence.len(), 2);
    assert!(failure.is_none());
    assert!(evidence
        .iter()
        .all(|evidence| evidence.outcome == CheckOutcome::Passed
            && evidence.realization == CheckRealization::LocalWorkspace
            && evidence.machine.as_deref() == Some("node-0")
            && evidence.log.is_none()));
    assert!(goes_on(&ended(0, "", "")));
    assert!(!goes_on(&ended(1, "", "")));
    assert!(!goes_on(&Err("no route".to_owned())));
    let (evidence, failure) = run_remote_checks(
        &[check("cuda"), check("nccl")],
        "node-0",
        &[ended(1, "", "no cuda\n")],
    )
    .unwrap();
    assert_eq!(evidence.len(), 1);
    assert_eq!(failure.map(|failure| failure.id), Some("cuda".to_owned()));
}

#[test]
fn a_cleanup_is_summed_up_over_the_processes() {
    let mut record = running();
    assert_eq!(server_cleanup_summary(&record), (false, None));
    for evidence in &mut record.process_evidence {
        evidence.cleanup.push(cleaned(CleanupTrigger::Stop, true));
    }
    assert_eq!(server_cleanup_summary(&record), (true, None));
    let mut uncertain = cleaned(CleanupTrigger::Stop, false);
    uncertain.error = Some("lost".to_owned());
    record.process_evidence[1].cleanup.push(uncertain);
    assert_eq!(
        server_cleanup_summary(&record),
        (false, Some("lost".to_owned()))
    );
}
