use inferlab::progress::{
    escape, HeartbeatTurn, Mode, Phase, ProgressState, FIRST_REPORT_AFTER, HEARTBEAT_EVERY,
};

const START: u128 = 1_000_000_000_000;

fn secs(n: u128) -> u128 {
    n * 1_000_000_000
}

#[test]
fn immediate_phase_reports_then_heartbeats_at_bounded_intervals() {
    let start = START;
    let mut state = ProgressState::new("toolchain install", Mode::Immediate);

    assert_eq!(
        state.begin(start, Phase::named("Pixi installation")),
        Some("progress: command=\"toolchain install\" phase=\"Pixi installation\"".to_owned())
    );
    assert_eq!(state.due(start + secs(9)), None);
    assert_eq!(
        state.due(start + secs(10)),
        Some(
            "progress: command=\"toolchain install\" phase=\"Pixi installation\" elapsed=10s"
                .to_owned()
        )
    );
    assert_eq!(state.due(start + secs(39)), None);
    assert_eq!(
        state.due(start + secs(40)),
        Some(
            "progress: command=\"toolchain install\" phase=\"Pixi installation\" elapsed=40s"
                .to_owned()
        )
    );
}

#[test]
fn delayed_phase_stays_quiet_until_ten_seconds_then_starts_heartbeat_clock() {
    let start = START;
    let mut state = ProgressState::new("stack status", Mode::Delayed);

    assert_eq!(
        state.begin(start, Phase::named("realization inspection")),
        None
    );
    assert_eq!(state.due(start + secs(9)), None);
    assert_eq!(
        state.due(start + secs(10)),
        Some("progress: command=\"stack status\" phase=\"realization inspection\"".to_owned())
    );
    assert_eq!(state.due(start + secs(19)), None);
    assert_eq!(
        state.due(start + secs(20)),
        Some(
            "progress: command=\"stack status\" phase=\"realization inspection\" elapsed=20s"
                .to_owned()
        )
    );
}

#[test]
fn delayed_phase_changes_do_not_restart_the_command_quiet_period() {
    let start = START;
    let mut state = ProgressState::new("image build", Mode::Delayed);

    assert_eq!(state.begin(start, Phase::named("resolution")), None);
    assert_eq!(
        state.begin(start + secs(9), Phase::named("package-build")),
        None
    );
    assert_eq!(
        state.due(start + secs(10)),
        Some("progress: command=\"image build\" phase=\"package-build\"".to_owned())
    );
    assert_eq!(
        state.begin(start + secs(11), Phase::named("assembly")),
        Some("progress: command=\"image build\" phase=\"assembly\"".to_owned())
    );
}

#[test]
fn heartbeat_uses_latest_phase_context() {
    let start = START;
    let mut state = ProgressState::new("serve start", Mode::Immediate);
    let phase = Phase::named("readiness")
        .item("worker-0", 1, 2)
        .log("/records/server.stderr.log");
    let initial = state.begin(start, phase);
    assert!(initial.is_some_and(|line| {
        line.contains("item=\"worker-0\"")
            && line.contains("position=1/2")
            && line.contains("log=\"/records/server.stderr.log\"")
    }));

    state.set_readiness_failure("connection refused\nretrying");
    let heartbeat = state.due(start + secs(10));
    assert!(heartbeat.is_some_and(|line| {
        line.contains("readiness_failure=\"connection refused\\nretrying\"")
            && line.contains("elapsed=10s")
    }));
}

#[test]
fn a_new_phase_resets_elapsed_time_and_escapes_fields() {
    let start = START;
    let mut state = ProgressState::new("recipe run", Mode::Immediate);
    let _ = state.begin(start, Phase::named("server startup"));
    let line = state.begin(
        start + secs(8),
        Phase::named("Eval").item("quote \" and slash \\", 2, 3),
    );
    assert!(line.is_some_and(|line| {
        line.contains("item=\"quote \\\"")
            && line.contains("slash \\\\")
            && !line.contains("elapsed=")
    }));
    assert_eq!(state.due(start + secs(17)), None);
    assert!(state
        .due(start + secs(18))
        .is_some_and(|line| line.contains("elapsed=10s")));
}

#[test]
fn operation_projection_retains_record_after_progress_moves_to_a_later_phase() {
    let start = START;
    let mut state = ProgressState::new("recipe run", Mode::Immediate);
    let _ = state.begin(
        start,
        Phase::named("record created").record("recipe-1", "/records/recipe-1"),
    );
    let _ = state.begin(start + secs(1), Phase::named("server startup"));
    let observation = state.observation();
    assert!(observation.is_some_and(|observation| {
        observation.phase == "server startup"
            && observation.record_ref.as_deref() == Some("recipe-1")
            && observation.record_dir.as_deref() == Some("/records/recipe-1")
    }));
}

#[test]
fn nested_workflow_records_do_not_replace_the_invocation_record() {
    let start = START;
    let mut state = ProgressState::new("recipe run", Mode::Immediate);
    let _ = state.begin(
        start,
        Phase::named("recipe record created").record("recipe-1", "/records/recipe-1"),
    );
    let _ = state.begin(
        start + secs(1),
        Phase::named("server record created").record("server-1", "/records/server-1"),
    );

    let observation = state.observation();

    assert!(observation.is_some_and(|observation| {
        observation.record_ref.as_deref() == Some("recipe-1")
            && observation.record_dir.as_deref() == Some("/records/recipe-1")
    }));
}

#[test]
fn escaped_text_is_one_field() {
    assert_eq!(escape("a\tb\r\"\\\n"), "a\\tb\\r\\\"\\\\\\n");
    assert_eq!(escape("plain"), "plain");
}

#[test]
fn a_command_without_a_phase_has_nothing_to_tell() {
    let mut state = ProgressState::new("serve start", Mode::Immediate);
    assert!(state.observation().is_none());
    assert_eq!(state.due(START), None);
    assert_eq!(state.wait_duration(START), HEARTBEAT_EVERY);
    assert_eq!(FIRST_REPORT_AFTER, secs(10));
    assert_eq!(HEARTBEAT_EVERY, secs(30));
}

#[test]
fn the_worker_waits_reports_and_stops() {
    let mut state = ProgressState::new("serve start", Mode::Immediate);
    let _ = state.begin(START, Phase::named("readiness"));
    assert_eq!(state.wait_duration(START + secs(4)), secs(6));
    assert_eq!(state.wait_duration(START + secs(10)), 0);
    assert_eq!(state.wait_duration(START + secs(11)), 0);
    assert!(matches!(state.heartbeat(true, START), HeartbeatTurn::Stop));
    assert!(matches!(
        state.heartbeat(false, START + secs(4)),
        HeartbeatTurn::Wait { line: None }
    ));
    assert!(matches!(
        state.heartbeat(false, START + secs(10)),
        HeartbeatTurn::Wait { line: Some(_) }
    ));
}

#[test]
fn a_phase_shows_what_it_waits_for() {
    let mut state = ProgressState::new("scratchpad note", Mode::Immediate);
    let line = state.begin(
        START,
        Phase::named("journal-lock waiting")
            .lock("/w/.inferlab/scratchpads/journal.jsonl")
            .current_item("note"),
    );
    assert_eq!(
        line,
        Some(
            "progress: command=\"scratchpad note\" phase=\"journal-lock waiting\" item=\"note\" lock=\"/w/.inferlab/scratchpads/journal.jsonl\""
                .to_owned()
        )
    );
}
