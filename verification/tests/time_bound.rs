use inferlab::time_bound::{
    duration_ms, OperationBound, OperationBudgetEvidence, OperationTerminalCause, Remaining,
};

const START: u128 = 50_000_000_000;

fn secs(n: u128) -> u128 {
    n * 1_000_000_000
}

#[test]
fn sequential_attempts_consume_one_finite_owner_budget() {
    let start = START;
    let bound = OperationBound::finite_at(start, secs(10));

    let first = bound.attempt_at(start + secs(2), Some(secs(6)));
    assert_eq!(
        first.remaining_at(start + secs(2)),
        Remaining::Finite(secs(6))
    );
    assert_eq!(first.remaining_at(start + secs(8)), Remaining::Expired);

    let second = bound.attempt_at(start + secs(8), Some(secs(6)));
    assert_eq!(
        second.remaining_at(start + secs(8)),
        Remaining::Finite(secs(2))
    );
    assert_eq!(second.remaining_at(start + secs(10)), Remaining::Expired);
}

#[test]
fn subordinate_attempt_cap_does_not_classify_the_owner_as_expired() {
    let start = START;
    let bound = OperationBound::finite_at(start, secs(10));
    let attempt = bound.attempt_at(start, Some(secs(2)));

    assert_eq!(attempt.remaining_at(start + secs(2)), Remaining::Expired);
    assert_eq!(
        bound.remaining_at(start + secs(2)),
        Remaining::Finite(secs(8))
    );
}

#[test]
fn unbounded_owner_retains_attempt_caps_without_acquiring_a_budget() {
    let start = START;
    let bound = OperationBound::unbounded(start);

    assert_eq!(bound.remaining_at(start), Remaining::Unbounded);
    let attempt = bound.attempt_at(start, Some(secs(2)));
    assert_eq!(attempt.remaining_at(start), Remaining::Finite(secs(2)));
    assert_eq!(
        bound.attempt_at(start, None).remaining_at(start),
        Remaining::Unbounded
    );
}

#[test]
fn terminal_evidence_distinguishes_finite_and_unbounded_owners() {
    let start = START;
    let finite = OperationBound::finite_at(start, secs(3));
    let finite_evidence = finite.timing(
        start,
        "before-client-release",
        OperationTerminalCause::TimedOut,
    );
    assert_eq!(
        finite_evidence.budget,
        OperationBudgetEvidence::Finite {
            configured_ms: 3_000,
        }
    );
    assert_eq!(finite_evidence.start_boundary, "before-client-release");
    assert_eq!(
        finite_evidence.terminal_cause,
        OperationTerminalCause::TimedOut
    );

    let unbounded = OperationBound::unbounded(start);
    let unbounded_evidence = unbounded.timing(
        start,
        "before-readiness-wait",
        OperationTerminalCause::Interrupted,
    );
    assert_eq!(
        unbounded_evidence.budget,
        OperationBudgetEvidence::Unbounded
    );
    assert_eq!(
        unbounded_evidence.terminal_cause,
        OperationTerminalCause::Interrupted
    );
}

#[test]
fn an_expired_owner_gives_expired_attempts() {
    let bound = OperationBound::finite_at(START, secs(1));
    let attempt = bound.attempt_at(START + secs(1), Some(secs(5)));
    assert_eq!(attempt.remaining_at(START + secs(1)), Remaining::Expired);
    assert!(bound.is_expired(START + secs(1)));
    assert!(bound.is_expired(START + secs(90)));
    assert!(!bound.is_expired(START));
}

#[test]
fn durations_saturate_at_the_largest_millisecond_count() {
    assert_eq!(duration_ms(1_999_999), 1);
    assert_eq!(duration_ms(u128::MAX), u64::MAX);
}
