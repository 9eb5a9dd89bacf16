use inferlab::json_value::{read_json, JsonValue};
use inferlab::process_group::{
    before_look, live_members, parse_start_time, process_start_time, wait_until_stopped, BoundedWait,
    CommandOutput, LocalProcessGroup, SignalEvidence, StopTurn, TerminationSignal, VerifiedStatus,
};
use inferlab::resolve::allocation::{TargetRegistryExpectedTarget, TargetRegistryPlan};
use inferlab::resolve::integration::LaunchFilePlan;
use inferlab::server::cleanup::{
    cleanup_failed_local_launch, completed_cleanup, container_to_remove, parse_cleanup_output,
    remove_server_container, terminate,
    terminate_local, terminate_ssh, CleanupTrigger, FailedLaunchAction, FailedLaunchEvent,
    LocalStopAction, LocalStopEvent, Removal, RemovalFailure,
};
use inferlab::server::handle::{
    process_group_has_live_members_under, run_cleanup_command, run_status_command,
    verified_local_status_under, verified_ssh_status_under, HostProcessHandle, ProcessHandle, ProcessStatus,
    SshProcessHandle,
};
use inferlab::server::launch::{
    cleanup_incomplete_ssh_launch, failed_local_launch, failed_ssh_handle_delivery,
    materialize_ssh_launch_files,
    parse_ssh_handle, remote_launch_file_script, spawn_ssh, verify_existing_launch_file,
    ExistingFile, SshLaunch, SshLaunchFault,
};
use inferlab::server::probe::{
    connect_within_attempt, http_request, probe_http, probe_http_json,
    probe_target_registry_attempt, read_within_attempt, write_within_attempt, ReadOutcome,
    TransferTurn, WriteOutcome,
};
use inferlab::server::readiness::{
    ensure_alive, process_alive_ready, wait_http_ready, wait_http_target_registry_ready, HttpAction,
    HttpEvent, ReadinessEvidence, ReadinessFailureKind, ReadinessWait, RegistryAction,
    RegistryEvent, READINESS_ATTEMPT_CAP,
};
use inferlab::server::registry::match_target_registry;
use inferlab::dict::Dict;
use inferlab::resolve::realization::CommandPlan;
use inferlab::time_bound::{
    duration_ms, OperationBound, OperationBudgetEvidence, OperationTerminalCause,
};
use sha2::{Digest, Sha256};

const START: u128 = 7_000_000_000;

fn millis(n: u128) -> u128 {
    n * 1_000_000
}

fn ended(exit_code: i32, stdout: &str, stderr: &str) -> CommandOutput {
    CommandOutput {
        exit_code: Some(exit_code),
        success: exit_code == 0,
        status: format!("exit status: {exit_code}"),
        stdout: stdout.as_bytes().to_vec(),
        stderr: stderr.as_bytes().to_vec(),
    }
}

#[test]
fn expired_readiness_owner_prevents_a_fresh_network_attempt() {
    let bound = OperationBound::finite_at(START, 0);
    let attempt = bound.attempt_at(START, Some(READINESS_ATTEMPT_CAP));
    let error = connect_within_attempt(&attempt, &Ok(true), START, "readiness")
        .err()
        .unwrap_or_default();

    assert_eq!(error, "readiness operation deadline expired");
}

#[test]
fn readiness_attempt_deadline_bounds_a_trickled_status_line() {
    let attempt =
        OperationBound::unbounded(START).attempt_at(START, Some(READINESS_ATTEMPT_CAP));
    let text = format!("HTTP/1.1 200 {}\r\n", " ".repeat(96));
    let mut response = Vec::new();
    let mut now = START;
    let mut failure = None;
    for byte in text.bytes() {
        let outcome = ReadOutcome::Data { bytes: vec![byte] };
        match read_within_attempt(&mut response, outcome, &attempt, now, true, "readiness") {
            TransferTurn::More => now += millis(20),
            TransferTurn::Done => panic!("the line ended in time"),
            TransferTurn::Failed { error } => {
                failure = Some(error);
                break;
            }
        }
    }

    let error = failure.unwrap_or_default();
    assert!(error.contains("deadline expired"), "{error}");
    assert!(now - START < millis(1_000));
}

#[test]
fn registry_attempt_deadline_bounds_a_trickled_body() {
    let attempt =
        OperationBound::unbounded(START).attempt_at(START, Some(READINESS_ATTEMPT_CAP));
    let mut response = Vec::new();
    let head = ReadOutcome::Data {
        bytes: b"HTTP/1.1 200 OK\r\nConnection: close\r\n\r\n".to_vec(),
    };
    assert!(matches!(
        read_within_attempt(&mut response, head, &attempt, START, false, "target registry"),
        TransferTurn::More
    ));
    let body = format!("{}{{}}", " ".repeat(96));
    let mut now = START;
    let mut failure = None;
    for byte in body.bytes() {
        let outcome = ReadOutcome::Data { bytes: vec![byte] };
        match read_within_attempt(
            &mut response,
            outcome,
            &attempt,
            now,
            false,
            "target registry",
        ) {
            TransferTurn::More => now += millis(20),
            TransferTurn::Done => panic!("the body ended in time"),
            TransferTurn::Failed { error } => {
                failure = Some(error);
                break;
            }
        }
    }

    let error = failure.unwrap_or_default();
    assert!(error.contains("deadline expired"), "{error}");
    assert!(now - START < millis(1_000));
}

fn target_registry_probe(expected_targets: Vec<TargetRegistryExpectedTarget>) -> TargetRegistryPlan {
    TargetRegistryPlan {
        readiness_path: "/readiness".to_owned(),
        registry_path: "/workers".to_owned(),
        targets_field: "workers".to_owned(),
        target_url_field: "url".to_owned(),
        target_role_field: "worker_type".to_owned(),
        target_healthy_field: "is_healthy".to_owned(),
        target_bootstrap_port_field: "bootstrap_port".to_owned(),
        expected_targets,
    }
}

fn expected(url: &str, role: &str, bootstrap_port: Option<u16>) -> TargetRegistryExpectedTarget {
    TargetRegistryExpectedTarget {
        url: url.to_owned(),
        role: role.to_owned(),
        bootstrap_port,
    }
}

fn read(text: &str) -> Result<JsonValue, String> {
    read_json(text.as_bytes())
}

#[test]
fn expired_readiness_owner_rejects_a_registry_match() -> Result<(), String> {
    let plan = target_registry_probe(vec![expected("http://decode:30001", "decode", None)]);
    let response = read(
        r#"{"workers": [{"url": "http://decode:30001", "worker_type": "decode", "is_healthy": true}]}"#,
    )?;

    let error = match_target_registry(
        &response,
        &plan,
        &OperationBound::finite_at(START, 0),
        START,
    )
    .err()
    .unwrap_or_default();

    assert_eq!(error, "readiness operation deadline expired");
    Ok(())
}

#[test]
fn process_status_command_cannot_outlive_the_readiness_owner() {
    let error = run_status_command(&BoundedWait::Expired { kill: Ok(()) })
        .err()
        .unwrap_or_default();

    assert_eq!(error, "process status attempt deadline expired");
}

#[test]
fn unbounded_process_status_command_does_not_acquire_a_timeout() -> Result<(), String> {
    let wait = BoundedWait::Exited {
        output: ended(0, "alive", ""),
    };
    let output = run_status_command(&wait)?;

    assert!(output.success);
    assert_eq!(output.stdout, b"alive");
    Ok(())
}

fn launch_file(root: &str, text: &str, name: &str) -> LaunchFilePlan {
    let sha256 = format!("{:x}", Sha256::digest(text.as_bytes()));
    let relative_path = format!("launch-files/{sha256}/{name}");
    LaunchFilePlan {
        resolved_path: format!("{root}/{relative_path}"),
        relative_path,
        text: text.to_owned(),
        sha256,
    }
}

#[test]
fn local_launch_file_publication_reuses_the_immutable_target() -> Result<(), String> {
    let file = launch_file("/cache", "worker: \u{2603}\nmode: context\n", "worker.yaml");
    verify_existing_launch_file(
        &file.resolved_path,
        &file.sha256,
        &ExistingFile::Regular {
            contents: Ok(file.text.as_bytes().to_vec()),
        },
    )
}

#[test]
fn local_launch_file_mismatch_fails_before_spawn_without_replacing_it() {
    let file = launch_file("/cache", "expected\n", "worker.yaml");
    let refused = |existing: ExistingFile| {
        verify_existing_launch_file(&file.resolved_path, &file.sha256, &existing)
            .err()
            .unwrap_or_default()
    };
    let error = refused(ExistingFile::Regular {
        contents: Ok(b"stale\n".to_vec()),
    });
    assert!(error.contains("does not match"), "{error}");
    assert!(!refused(ExistingFile::NotRegular).is_empty());
    assert!(refused(ExistingFile::Unreadable {
        error: "denied".to_owned()
    })
    .contains("denied"));
}

#[test]
fn remote_launch_file_script_publishes_stdin_without_replacing_targets() -> Result<(), String> {
    let file = launch_file("/cache dir", "worker: \u{96ea}\nmode: context\n", "worker.yaml");
    let script = remote_launch_file_script(&file)?;
    assert!(script.contains(&format!("'{}'", file.resolved_path)), "{script}");
    assert!(script.contains(&file.sha256), "{script}");
    assert!(materialize_ssh_launch_files(
        "host",
        std::slice::from_ref(&file),
        &[Ok(ended(0, "", ""))]
    )
    .is_ok());
    assert!(materialize_ssh_launch_files(
        "host",
        std::slice::from_ref(&file),
        &[Ok(ended(1, "", "digest differs"))]
    )
    .is_err_and(|error| error.contains("digest differs")));
    Ok(())
}

fn alive_status() -> ProcessStatus {
    ProcessStatus {
        queried: true,
        alive: true,
        error: None,
    }
}

fn registry_response(body: &str) -> Vec<u8> {
    format!(
        "HTTP/1.1 200 OK\r\nContent-Type: application/json\r\nContent-Length: {}\r\nConnection: close\r\n\r\n{body}",
        body.len()
    )
    .into_bytes()
}

const BOTH: &str = r#"{"workers": [
    {"url": "http://prefill:30000", "worker_type": "prefill", "is_healthy": true, "bootstrap_port": 8998},
    {"url": "http://decode:30001", "worker_type": "decode", "is_healthy": true}
]}"#;

const PARTIAL: &str = r#"{"workers": [
    {"url": "http://prefill:30000", "worker_type": "prefill", "is_healthy": true, "bootstrap_port": 8998}
]}"#;

fn both_expected() -> TargetRegistryPlan {
    target_registry_probe(vec![
        expected("http://prefill:30000", "prefill", Some(8998)),
        expected("http://decode:30001", "decode", None),
    ])
}

/// Runs the wait against an endpoint that is always alive and answers the
/// registry with the body; each probe takes `step`.
fn await_registry(
    wait: &mut ReadinessWait,
    plan: &TargetRegistryPlan,
    body: &str,
    step: u128,
    reported: &mut Vec<String>,
) -> RegistryAction {
    let mut now = START;
    let mut event = RegistryEvent::Turn {
        now,
        interrupted: false,
    };
    loop {
        let cap = wait
            .bound
            .attempt_at(now, Some(READINESS_ATTEMPT_CAP))
            .configured_ms()
            .unwrap_or_default();
        event = match wait_http_target_registry_ready(wait, "127.0.0.1", 8000, plan, event) {
            RegistryAction::QueryStatus => RegistryEvent::Status {
                status: alive_status(),
                now,
                interrupted: false,
            },
            RegistryAction::Probe => RegistryEvent::Probed {
                effective_bound_ms: cap,
                outcome: probe_http(b"HTTP/1.1 200 OK\r\n".to_vec()),
            },
            RegistryAction::ReadRegistry => {
                now += step;
                RegistryEvent::Registry {
                    effective_bound_ms: cap,
                    outcome: probe_target_registry_attempt(
                        &Ok(registry_response(body)),
                        plan,
                        &wait.bound,
                        now,
                    ),
                }
            }
            RegistryAction::ReadClocks => RegistryEvent::Answered {
                clock: Ok(1_700_000_000_000),
                now,
            },
            RegistryAction::Report { last_error } => {
                reported.push(last_error);
                RegistryEvent::Reported { now }
            }
            RegistryAction::Sleep { pause } => {
                now += pause;
                RegistryEvent::Turn {
                    now,
                    interrupted: false,
                }
            }
            last => return last,
        };
    }
}

#[test]
fn target_registry_readiness_records_all_expected_targets() -> Result<(), String> {
    let plan = both_expected();
    let mut wait = ReadinessWait::new(None, START);
    let mut reported = Vec::new();
    let last = await_registry(&mut wait, &plan, BOTH, millis(5), &mut reported);
    let RegistryAction::Ready { evidence } = last else {
        return Err(format!("not ready: {last:?}"));
    };
    let ReadinessEvidence::HttpTargetRegistry {
        readiness_url,
        registry_url,
        attempts,
        matched_targets,
        timing,
        diagnostic_attempts,
        ready_unix_ms: _,
    } = evidence
    else {
        return Err("target registry readiness returned the wrong evidence kind".to_owned());
    };
    assert_eq!(readiness_url, "http://127.0.0.1:8000/readiness");
    assert_eq!(registry_url, "http://127.0.0.1:8000/workers");
    assert_eq!(attempts, 1);
    assert_eq!(timing.budget, OperationBudgetEvidence::Unbounded);
    assert_eq!(timing.terminal_cause, OperationTerminalCause::Succeeded);
    assert_eq!(diagnostic_attempts.len(), 2);
    assert!(diagnostic_attempts.iter().all(|attempt| {
        attempt.succeeded
            && (1..=duration_ms(READINESS_ATTEMPT_CAP)).contains(&attempt.effective_bound_ms)
    }));
    assert_eq!(matched_targets.len(), 2);
    assert_eq!(matched_targets[0].url, "http://prefill:30000");
    assert_eq!(matched_targets[0].role, "prefill");
    assert!(matched_targets[0].healthy);
    assert_eq!(matched_targets[0].bootstrap_port, Some(8998));
    assert_eq!(matched_targets[1].url, "http://decode:30001");
    assert_eq!(matched_targets[1].role, "decode");
    assert!(matched_targets[1].healthy);
    assert_eq!(matched_targets[1].bootstrap_port, None);
    Ok(())
}

#[test]
fn target_registry_readiness_rejects_partial_registration() -> Result<(), String> {
    let plan = both_expected();
    let mut wait = ReadinessWait::new(Some(1), START);
    let mut probe_failures = Vec::new();
    let last = await_registry(&mut wait, &plan, PARTIAL, millis(5), &mut probe_failures);
    let RegistryAction::Fail { failure } = last else {
        return Err(format!(
            "partial target registration unexpectedly became ready: {last:?}"
        ));
    };

    assert_eq!(failure.kind, ReadinessFailureKind::Timeout);
    let timing = failure
        .timing
        .as_ref()
        .ok_or_else(|| "readiness timeout has no timing evidence".to_owned())?;
    assert_eq!(
        timing.budget,
        OperationBudgetEvidence::Finite {
            configured_ms: 1_000,
        }
    );
    assert_eq!(timing.terminal_cause, OperationTerminalCause::TimedOut);
    assert!(probe_failures.iter().any(|failure| {
        failure.contains("target registry has no \"decode\" target at \"http://decode:30001\"")
    }));
    Ok(())
}

#[test]
fn registries_of_another_shape_are_refused() -> Result<(), String> {
    let plan = both_expected();
    let bound = OperationBound::unbounded(START);
    for text in [
        "[]",
        "{}",
        r#"{"workers": 3}"#,
        r#"{"workers": [{"url": "http://prefill:30000", "worker_type": "prefill", "is_healthy": false, "bootstrap_port": 8998}]}"#,
        r#"{"workers": [{"url": "http://prefill:30000", "worker_type": "prefill", "is_healthy": true, "bootstrap_port": 1}]}"#,
    ] {
        assert!(
            match_target_registry(&read(text)?, &plan, &bound, START).is_err(),
            "{text}"
        );
    }
    Ok(())
}

#[test]
fn responses_tell_their_document_or_why_not() {
    let label = "target registry";
    assert!(probe_http_json(&registry_response("{}"), label).is_ok());
    assert!(probe_http_json(&registry_response("{"), label)
        .is_err_and(|error| error.starts_with("target registry returned invalid JSON: ")));
    assert!(probe_http_json(b"HTTP/1.1 200 OK\r\n", label)
        .is_err_and(|error| error == "target registry returned an invalid HTTP response"));
    assert!(probe_http_json(b"HTTP/1.1 503 Busy\r\n\r\n{}", label)
        .is_err_and(|error| error == "target registry returned HTTP 503"));
    assert!(probe_http(b"HTTP/1.1 503 Busy\r\n".to_vec())
        .is_err_and(|error| error == "readiness returned HTTP 503"));
    assert!(probe_http(vec![0xff]).is_err_and(|error| error
        .starts_with("readiness returned a non-UTF-8 status line: ")));
    assert_eq!(
        http_request("h", 80, "/p"),
        "GET /p HTTP/1.1\r\nHost: h:80\r\nConnection: close\r\n\r\n"
    );
}

#[test]
fn documents_hold_every_form_of_json() -> Result<(), String> {
    let value = read(r#"{"a": [null, true, 7, -1, "x"]}"#)?;
    let JsonValue::Object(entries) = value else {
        return Err("an object was read".to_owned());
    };
    assert_eq!(entries[0].0, "a");
    let JsonValue::Array(items) = &entries[0].1 else {
        return Err("an array was read".to_owned());
    };
    assert!(matches!(items[0], JsonValue::Null));
    assert!(matches!(items[1], JsonValue::Bool(true)));
    assert!(matches!(items[2], JsonValue::Unsigned(7)));
    assert!(matches!(&items[3], JsonValue::Number(text) if text == "-1"));
    assert!(matches!(&items[4], JsonValue::Text(text) if text == "x"));
    assert!(read("{").is_err());
    Ok(())
}

#[test]
fn writes_are_counted_within_the_attempt() {
    let attempt =
        OperationBound::unbounded(START).attempt_at(START, Some(READINESS_ATTEMPT_CAP));
    let mut sent: usize = 0;
    let wrote = |count: usize| WriteOutcome::Wrote { count };
    assert!(matches!(
        write_within_attempt(&mut sent, 10, &wrote(4), &attempt, START, "readiness"),
        TransferTurn::More
    ));
    assert!(matches!(
        write_within_attempt(&mut sent, 10, &wrote(6), &attempt, START, "readiness"),
        TransferTurn::Done
    ));
    assert!(matches!(
        write_within_attempt(&mut sent, 10, &wrote(0), &attempt, START, "readiness"),
        TransferTurn::Failed { error } if error == "failed to write readiness request: connection closed"
    ));
}

fn await_http(wait: &mut ReadinessWait, answers: &[bool], dead: bool) -> HttpAction {
    let mut now = START;
    let mut turn: usize = 0;
    let mut event = HttpEvent::Turn {
        now,
        interrupted: false,
    };
    loop {
        event = match wait_http_ready(wait, "127.0.0.1", 8000, "/ready", event) {
            HttpAction::QueryStatus => HttpEvent::Status {
                status: ProcessStatus {
                    queried: true,
                    alive: !dead,
                    error: None,
                },
                now,
                interrupted: false,
            },
            HttpAction::Probe => {
                let good = answers.get(turn).copied().unwrap_or(false);
                turn += 1;
                HttpEvent::Probed {
                    effective_bound_ms: 250,
                    outcome: if good {
                        Ok(())
                    } else {
                        Err("readiness connection failed: refused".to_owned())
                    },
                }
            }
            HttpAction::ReadClocks => HttpEvent::Answered {
                clock: Ok(5),
                now,
            },
            HttpAction::Report { .. } => HttpEvent::Reported { now },
            HttpAction::Sleep { pause } => {
                now += pause;
                HttpEvent::Turn {
                    now,
                    interrupted: false,
                }
            }
            last => return last,
        };
    }
}

#[test]
fn an_endpoint_is_ready_at_its_first_good_answer() {
    let mut wait = ReadinessWait::new(Some(60), START);
    match await_http(&mut wait, &[false, false, true], false) {
        HttpAction::Ready {
            evidence: ReadinessEvidence::Http { url, attempts, .. },
        } => {
            assert_eq!(url, "http://127.0.0.1:8000/ready");
            assert_eq!(attempts, 3);
        }
        other => panic!("{other:?}"),
    }
}

#[test]
fn a_dead_process_is_not_awaited() {
    let mut wait = ReadinessWait::new(None, START);
    match await_http(&mut wait, &[true], true) {
        HttpAction::Fail { failure } => assert_eq!(failure.kind, ReadinessFailureKind::Exited),
        other => panic!("{other:?}"),
    }
    assert!(ensure_alive(alive_status()).is_ok());
}

#[test]
fn an_endpoint_that_never_answers_times_out() {
    let mut wait = ReadinessWait::new(Some(3), START);
    match await_http(&mut wait, &[], false) {
        HttpAction::Fail { failure } => {
            assert_eq!(failure.kind, ReadinessFailureKind::Timeout);
            assert_eq!(
                failure.message,
                "server did not become ready within 3 seconds; last probe error: no readiness probe completed"
            );
            assert!(failure.diagnostic_attempts[0]
                .error
                .as_deref()
                .is_some_and(|error| error.contains("refused")));
        }
        other => panic!("{other:?}"),
    }
}

#[test]
fn a_process_that_is_alive_is_ready() {
    match process_alive_ready(START, alive_status(), &Ok(9), START + millis(4)) {
        Ok(ReadinessEvidence::ProcessAlive { ready_unix_ms, .. }) => assert_eq!(ready_unix_ms, 9),
        other => panic!("{other:?}"),
    }
    assert!(process_alive_ready(START, alive_status(), &Err("early".to_owned()), START).is_err());
}

fn host_handle(ticks: u64) -> HostProcessHandle {
    HostProcessHandle {
        leader_pid: 41,
        process_group: 41,
        leader_start_time_ticks: ticks,
        container: None,
    }
}

#[test]
fn rejects_a_reused_process_identity() {
    let actual: u64 = 77;
    let recorded = actual + 1;
    let status = verified_local_status_under(&host_handle(recorded), &Ok(Some(actual)), &Ok(true));

    assert!(status.queried);
    assert!(!status.alive);
    assert!(status
        .error
        .is_some_and(|error| error.contains("pid was reused")));
}

#[test]
fn a_live_leader_or_a_live_member_is_alive() {
    assert!(verified_local_status_under(&host_handle(5), &Ok(Some(5)), &Ok(true)).alive);
    let untold = verified_local_status_under(&host_handle(5), &Err("denied".to_owned()), &Ok(true));
    assert!(!untold.alive && untold.error.is_some());
}

fn sent(signal: TerminationSignal) -> SignalEvidence {
    LocalProcessGroup::unverified(41).send_signal(
        signal,
        &BoundedWait::Exited {
            output: ended(0, "", ""),
        },
    )
}

#[test]
fn termination_waits_for_the_group_after_the_launcher_exits() {
    let handle = host_handle(5);
    let asked = terminate_local(
        &handle,
        CleanupTrigger::Stop,
        None,
        LocalStopEvent::Checked {
            status: Ok(VerifiedStatus::Alive),
        },
        1,
    );
    assert!(matches!(asked, LocalStopAction::Ask));
    let kill = terminate_local(
        &handle,
        CleanupTrigger::Stop,
        Some(asked),
        LocalStopEvent::Asked {
            term: sent(TerminationSignal::Term),
            stopped: Ok(false),
        },
        2_010,
    );
    assert!(matches!(kill, LocalStopAction::Kill { .. }));
    let done = terminate_local(
        &handle,
        CleanupTrigger::Stop,
        Some(kill),
        LocalStopEvent::Killed {
            kill: sent(TerminationSignal::Kill),
            stopped: Ok(true),
        },
        2_200,
    );
    let LocalStopAction::Done { evidence: cleanup } = done else {
        panic!("the cleanup is over: {done:?}");
    };

    assert!(cleanup.verified, "{cleanup:?}");
    assert!(cleanup.forced);
    assert_eq!(cleanup.signals.len(), 2);
    assert!(cleanup.elapsed_ms >= cleanup.term_grace_ms);
    assert_eq!(cleanup.status_deadline_ms, 2_000);
    assert_eq!(cleanup.term_grace_ms, 2_000);
    assert_eq!(cleanup.kill_grace_ms, 10_000);
}

#[test]
fn a_group_that_is_gone_needs_no_signal() {
    let done = terminate_local(
        &host_handle(5),
        CleanupTrigger::Stop,
        None,
        LocalStopEvent::Checked {
            status: Ok(VerifiedStatus::Exited),
        },
        3,
    );
    assert!(matches!(
        done,
        LocalStopAction::Done { evidence } if evidence.verified && evidence.already_exited
            && evidence.signals.is_empty()
    ));
}

fn ssh_handle() -> SshProcessHandle {
    SshProcessHandle {
        target: "host".to_owned(),
        leader_pid: 41,
        process_group: 41,
        leader_start_time_ticks: 5,
        stdout: "/r/stdout.log".to_owned(),
        stderr: "/r/stderr.log".to_owned(),
        container: None,
    }
}

#[test]
fn remote_cleanup_is_what_the_machine_reports() {
    assert!(parse_cleanup_output("login banner\n").is_none());
    let unknown = terminate_ssh(
        &ssh_handle(),
        CleanupTrigger::Stop,
        &Ok(ended(0, "login banner\n", "")),
        4,
    );
    assert!(!unknown.verified);
    let failed = terminate_ssh(
        &ssh_handle(),
        CleanupTrigger::Stop,
        &Err("no route".to_owned()),
        4,
    );
    assert!(!failed.verified && failed.error.is_some());
    assert_eq!(failed.remote_deadline_ms, Some(30_000));
}

#[test]
fn remote_status_is_what_the_machine_reports() {
    let failed = verified_ssh_status_under(&ssh_handle(), &Err("no route".to_owned()));
    assert!(!failed.alive && failed.error.is_some());
}

#[test]
fn a_cleanup_is_verified_only_with_its_container_gone() {
    let done = |status: VerifiedStatus| match terminate_local(
        &host_handle(5),
        CleanupTrigger::Stop,
        None,
        LocalStopEvent::Checked { status: Ok(status) },
        3,
    ) {
        LocalStopAction::Done { evidence } => evidence,
        other => panic!("{other:?}"),
    };
    let confirmed = remove_server_container(
        "c1",
        millis(10_000),
        Removal::Confirmed {
            already_absent: true,
        },
        7,
    );
    assert!(confirmed.confirmed && confirmed.already_absent);
    let mut handle = host_handle(5);
    handle.container = Some("c1".to_owned());
    let handle = ProcessHandle::Local(handle);
    assert_eq!(container_to_remove(&handle), Some(("c1", None)));
    assert!(terminate(&handle, done(VerifiedStatus::Exited), Some(confirmed)).verified);
    let unconfirmed = remove_server_container(
        "c1",
        millis(10_000),
        Removal::Unconfirmed {
            failure: RemovalFailure::Launch {
                error: "absent".to_owned(),
            },
        },
        7,
    );
    assert!(!unconfirmed.confirmed && unconfirmed.error.is_some());
    assert!(!terminate(&handle, done(VerifiedStatus::Exited), Some(unconfirmed)).verified);
    let bare = ProcessHandle::Local(host_handle(5));
    assert_eq!(container_to_remove(&bare), None);
    assert!(terminate(&bare, done(VerifiedStatus::Exited), None).verified);
    let mut remote = ssh_handle();
    remote.container = Some("c2".to_owned());
    let target = remote.target.clone();
    assert_eq!(
        container_to_remove(&ProcessHandle::Ssh(remote)),
        Some(("c2", Some(target.as_str())))
    );
}

#[test]
fn a_failed_launch_is_reaped() {
    assert!(matches!(
        cleanup_failed_local_launch(None, FailedLaunchEvent::Inspected { ended: Ok(true) }, 1),
        FailedLaunchAction::Done { evidence } if evidence.verified
    ));
    let capture = cleanup_failed_local_launch(
        None,
        FailedLaunchEvent::Inspected {
            ended: Err("no child".to_owned()),
        },
        1,
    );
    assert!(matches!(capture, FailedLaunchAction::Capture { .. }));
    let kill = cleanup_failed_local_launch(
        Some(capture),
        FailedLaunchEvent::Captured { identity: Ok(()) },
        1,
    );
    assert!(matches!(kill, FailedLaunchAction::Kill { .. }));
    let done = cleanup_failed_local_launch(
        Some(kill),
        FailedLaunchEvent::Reaped {
            signal: sent(TerminationSignal::Kill),
            reaped: Ok(false),
        },
        1,
    );
    let FailedLaunchAction::Done { evidence } = done else {
        panic!("the cleanup is over: {done:?}");
    };
    assert!(!evidence.verified);
    assert!(evidence.error.is_some_and(|error| error
        .starts_with("failed to inspect failed launch child: no child; child did not reap within ")));
}

#[test]
fn commands_that_do_not_end_are_told() {
    assert_eq!(
        run_cleanup_command(&BoundedWait::Expired { kill: Ok(()) }, "remote cleanup").err(),
        Some("remote cleanup deadline expired".to_owned())
    );
    assert_eq!(
        run_cleanup_command(
            &BoundedWait::LaunchFailed {
                error: "absent".to_owned()
            },
            "remote cleanup"
        )
        .err(),
        Some("failed to launch remote cleanup: absent".to_owned())
    );
    assert_eq!(
        run_cleanup_command(
            &BoundedWait::WaitCleanupFailed {
                source: "lost".to_owned(),
                cleanup_error: None,
                cleanup_verified: true,
            },
            "remote cleanup"
        )
        .err(),
        Some("remote cleanup wait failed: lost; child cleanup: verified".to_owned())
    );
}

fn command() -> CommandPlan {
    CommandPlan {
        argv: vec!["serve".to_owned()],
        env: Dict::new(),
        explicit_env: Vec::new(),
        pass_env: Vec::new(),
        cwd: "/w".to_owned(),
    }
}

#[test]
fn a_remote_handle_is_delivered_or_cleaned_up() {
    let command = command();
    let launch = SshLaunch {
        target: "host",
        remote_dir: "/r",
        cache_root: "/c",
        command: &command,
        container: None,
    };
    let handle = parse_ssh_handle(&launch, "banner\nINFERLAB_HANDLE\t41\t5\n").unwrap();
    assert_eq!(handle.leader_pid, 41);
    assert_eq!(handle.leader_start_time_ticks, 5);
    assert_eq!(handle.stdout, "/r/stdout.log");
    match spawn_ssh(&launch, &[], &[], &Ok(ended(0, "banner\n", ""))) {
        Err(SshLaunchFault::Undelivered { message }) => assert!(!message.is_empty()),
        _ => panic!("no handle was delivered"),
    }
    let known = failed_ssh_handle_delivery("/r/handle", None, "lost", &Ok(()), None, 3);
    assert!(!known.ownership_unknown);
    assert_eq!(launch.handle_file(), "/r/launch.handle");
    let denied = Err("denied".to_owned());
    let unknown = failed_ssh_handle_delivery("/r/handle", None, "lost", &denied, None, 3);
    assert!(unknown.ownership_unknown);
    assert!(cleanup_incomplete_ssh_launch(&Ok(ended(1, "", "denied"))).is_err());
}

#[test]
fn process_tables_tell_live_members() {
    let stat = "41 (a) b) S 1 41 41 0 -1 4194560 1 0 0 0 0 0 0 0 20 0 1 0 5 0 0";
    assert_eq!(parse_start_time(41, stat), Ok(5));
    assert_eq!(
        process_start_time(41, &Ok(Some(stat.to_owned()))),
        Ok(Some(5))
    );
    assert_eq!(process_start_time(41, &Ok(None)), Ok(None));
    assert!(parse_start_time(41, "nonsense").is_err());
    assert!(live_members("  40 41 S\n  42 42 Z\n", 41));
    assert!(!live_members("  41 42 S\n", 41));
    assert!(!live_members("  42 42 Z+\n", 42));
}

#[test]
fn a_wait_for_a_group_ends_with_its_bound() {
    let bound = OperationBound::finite_at(START, millis(100));
    assert!(matches!(
        wait_until_stopped(&Ok(false), &bound, START, millis(50)),
        StopTurn::Over(true)
    ));
    assert!(matches!(
        wait_until_stopped(&Ok(true), &bound, START, millis(50)),
        StopTurn::Sleep(_)
    ));
    assert!(matches!(
        wait_until_stopped(&Ok(true), &bound, START + millis(100), millis(50)),
        StopTurn::Over(false)
    ));
    assert!(matches!(
        wait_until_stopped(&Err("lost".to_owned()), &bound, START, millis(50)),
        StopTurn::Failed(error) if error == "lost"
    ));
}

#[test]
fn a_turn_ends_before_the_look_where_it_must() {
    let bound = OperationBound::finite_at(START, millis(100));
    assert!(before_look(&Ok(()), &bound, START + millis(99)).is_none());
    assert!(matches!(
        before_look(&Ok(()), &bound, START + millis(100)),
        Some(StopTurn::Over(false))
    ));
    assert!(matches!(
        before_look(&Err("no child".to_owned()), &bound, START),
        Some(StopTurn::Failed(text)) if text == "failed to reap process-group leader: no child"
    ));
    assert!(before_look(&Ok(()), &OperationBound::unbounded(START), START).is_none());
}

#[test]
fn a_group_is_known_by_its_leader_and_its_members() {
    let group = LocalProcessGroup::capture_child(41, &Ok(Some(99))).unwrap();
    assert_eq!(group.leader_start_time_ticks, 99);
    assert!(group.identity_matches(&Ok(Some(99))));
    assert!(!group.identity_matches(&Ok(Some(100))));
    assert!(!group.identity_matches(&Ok(None)));
    assert_eq!(
        LocalProcessGroup::capture_child(41, &Ok(None)).err().as_deref(),
        Some("process 41 exited before its identity could be recorded")
    );
    let status = |start: Option<u64>, members: bool| group.verified_status(&Ok(start), &Ok(members));
    assert_eq!(status(Some(99), true), Ok(VerifiedStatus::Alive));
    assert_eq!(status(Some(99), false), Ok(VerifiedStatus::Exited));
    assert_eq!(status(Some(100), true), Ok(VerifiedStatus::Reused));
    assert_eq!(status(None, true), Ok(VerifiedStatus::LeaderMissingWithMembers));
    assert_eq!(status(None, false), Ok(VerifiedStatus::Exited));
}

#[test]
fn live_members_are_read_from_the_process_table() {
    let group = LocalProcessGroup::unverified(41);
    let table = |text: &str, exit_code: i32| BoundedWait::Exited {
        output: ended(exit_code, text, " broken "),
    };
    assert_eq!(group.has_live_members(&table(" 42 41 S\n", 0)), Ok(true));
    assert_eq!(group.has_live_members(&table(" 42 41 Z+\n", 0)), Ok(false));
    assert_eq!(
        group.has_live_members(&table("", 1)).err().as_deref(),
        Some("process-group query exited with exit status: 1: broken")
    );
    assert_eq!(
        process_group_has_live_members_under(41, &ended(0, "1 41 R\n", "")),
        Ok(true)
    );
}

#[test]
fn a_failed_launch_keeps_what_was_cleaned() {
    let clean = || completed_cleanup(CleanupTrigger::StartupRollback, false, true, Vec::new());
    let alone = failed_local_launch(None, "no identity", clean(), None);
    assert_eq!(alone.message, "no identity");
    assert!(!alone.ownership_unknown);
    let removal = remove_server_container(
        "box",
        millis(10),
        Removal::Unconfirmed {
            failure: RemovalFailure::Launch {
                error: "no docker".to_owned(),
            },
        },
        3,
    );
    let failure = failed_local_launch(Some("box"), "no identity", clean(), Some(removal));
    assert!(failure.ownership_unknown);
    assert!(failure
        .message
        .starts_with("no identity; container box removal was not confirmed: "));
    let cleanup = failure.cleanup.unwrap();
    assert!(!cleanup.verified);
    assert!(cleanup.container_removal.is_some());
}
