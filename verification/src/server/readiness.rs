//! Waiting for a server to become ready: what each turn of the wait decides.

use crate::resolve::allocation::TargetRegistryPlan;
use crate::server::cleanup::POLL_INTERVAL;
use crate::server::handle::{ProcessStatus, StatusView};
use crate::server::probe::{document_told, registry_read};
use crate::server::registry::{
    expired_words, law_accepted_registry_reports_every_target, matches_are, matches_of, MatchView,
    TargetRegistryMatchEvidence,
};
use crate::text::{cat2, cat4, cat5, copy_text, decimal, text_of, to_decimal};
use crate::time_bound::{
    min_duration, shorter, AttemptBound, BoundKind, OperationBound, OperationTerminalCause,
    OperationTimingEvidence, Remaining, TimingView,
};
use vstd::prelude::*;
use vstd::string::*;

verus! {

/// The longest time between two probes, in nanoseconds.
pub const MAX_PROBE_INTERVAL: u128 = 5_000_000_000;

/// The longest time that one probe may take.
pub const READINESS_ATTEMPT_CAP: u128 = 250_000_000;

/// One probe of a wait.
#[derive(Debug)]
pub struct ReadinessAttemptEvidence {
    pub operation: String,
    pub effective_bound_ms: u64,
    pub succeeded: bool,
    pub error: Option<String>,
}

/// One probe of a wait, as values.
pub struct AttemptView {
    pub operation: Seq<char>,
    pub effective_bound_ms: u64,
    pub succeeded: bool,
    pub error: Option<Seq<char>>,
}

impl View for ReadinessAttemptEvidence {
    type V = AttemptView;

    open spec fn view(&self) -> AttemptView {
        AttemptView {
            operation: self.operation@,
            effective_bound_ms: self.effective_bound_ms,
            succeeded: self.succeeded,
            error: text_of(self.error),
        }
    }
}

/// The probes of a wait, as values.
pub open spec fn attempts_of(list: Seq<ReadinessAttemptEvidence>) -> Seq<AttemptView> {
    Seq::new(list.len(), |i: int| list[i]@)
}

/// How a server became ready.
#[derive(Debug)]
pub enum ReadinessEvidence {
    Http {
        url: String,
        attempts: u32,
        ready_unix_ms: u64,
        timing: OperationTimingEvidence,
        diagnostic_attempts: Vec<ReadinessAttemptEvidence>,
    },
    HttpTargetRegistry {
        readiness_url: String,
        registry_url: String,
        attempts: u32,
        ready_unix_ms: u64,
        matched_targets: Vec<TargetRegistryMatchEvidence>,
        timing: OperationTimingEvidence,
        diagnostic_attempts: Vec<ReadinessAttemptEvidence>,
    },
    ProcessAlive { ready_unix_ms: u64, timing: OperationTimingEvidence },
}

/// How a server became ready, as values.
pub enum ReadinessView {
    Http {
        url: Seq<char>,
        attempts: u32,
        ready_unix_ms: u64,
        timing: TimingView,
        diagnostic_attempts: Seq<AttemptView>,
    },
    HttpTargetRegistry {
        readiness_url: Seq<char>,
        registry_url: Seq<char>,
        attempts: u32,
        ready_unix_ms: u64,
        matched_targets: Seq<MatchView>,
        timing: TimingView,
        diagnostic_attempts: Seq<AttemptView>,
    },
    ProcessAlive { ready_unix_ms: u64, timing: TimingView },
}

impl View for ReadinessEvidence {
    type V = ReadinessView;

    open spec fn view(&self) -> ReadinessView {
        match *self {
            ReadinessEvidence::Http {
                url,
                attempts,
                ready_unix_ms,
                timing,
                diagnostic_attempts,
            } => ReadinessView::Http {
                url: url@,
                attempts,
                ready_unix_ms,
                timing: timing@,
                diagnostic_attempts: attempts_of(diagnostic_attempts@),
            },
            ReadinessEvidence::HttpTargetRegistry {
                readiness_url,
                registry_url,
                attempts,
                ready_unix_ms,
                matched_targets,
                timing,
                diagnostic_attempts,
            } => ReadinessView::HttpTargetRegistry {
                readiness_url: readiness_url@,
                registry_url: registry_url@,
                attempts,
                ready_unix_ms,
                matched_targets: matches_of(matched_targets@),
                timing: timing@,
                diagnostic_attempts: attempts_of(diagnostic_attempts@),
            },
            ReadinessEvidence::ProcessAlive {
                ready_unix_ms,
                timing,
            } => ReadinessView::ProcessAlive { ready_unix_ms, timing: timing@ },
        }
    }
}

/// Why a server did not become ready.
#[derive(Clone, Copy, Debug, PartialEq, Eq, Structural)]
pub enum ReadinessFailureKind {
    Exited,
    Interrupted,
    Timeout,
}

/// A server that did not become ready.
#[derive(Debug)]
pub struct ReadinessFailure {
    pub kind: ReadinessFailureKind,
    pub message: String,
    pub timing: Option<OperationTimingEvidence>,
    pub diagnostic_attempts: Vec<ReadinessAttemptEvidence>,
}

/// A server that did not become ready, as values.
#[verifier::ext_equal]
pub struct UnreadyView {
    pub kind: ReadinessFailureKind,
    pub message: Seq<char>,
    pub timing: Option<TimingView>,
    pub diagnostic_attempts: Seq<AttemptView>,
}

impl View for ReadinessFailure {
    type V = UnreadyView;

    open spec fn view(&self) -> UnreadyView {
        UnreadyView {
            kind: self.kind,
            message: self.message@,
            timing: match self.timing {
                Some(timing) => Some(timing@),
                None => None,
            },
            diagnostic_attempts: attempts_of(self.diagnostic_attempts@),
        }
    }
}

// ---------------------------------------------------------------------------
// Failures

/// A failure without its time.
pub open spec fn unready(kind: ReadinessFailureKind, message: Seq<char>) -> UnreadyView {
    UnreadyView { kind, message, timing: None, diagnostic_attempts: Seq::empty() }
}

/// A failure without its time.
pub fn readiness_failure(kind: ReadinessFailureKind, message: String) -> (r: ReadinessFailure)
    ensures
        r@ == unready(kind, message@),
{
    let r = ReadinessFailure { kind, message, timing: None, diagnostic_attempts: Vec::new() };
    assert(r@ =~= unready(kind, message@));
    r
}

/// A failure with its time and the last probes.
pub open spec fn unready_at(
    failure: UnreadyView,
    bound: OperationBound,
    now: u128,
    cause: OperationTerminalCause,
    attempts: Seq<AttemptView>,
) -> UnreadyView {
    UnreadyView {
        timing: Some(bound.timing_at(now, "before_readiness_wait"@, cause)),
        diagnostic_attempts: attempts,
        ..failure
    }
}

/// A failure with its time and the last probes.
pub fn timed_readiness_failure(
    failure: ReadinessFailure,
    bound: &OperationBound,
    now: u128,
    terminal_cause: OperationTerminalCause,
    diagnostic_attempts: Vec<ReadinessAttemptEvidence>,
) -> (r: ReadinessFailure)
    ensures
        r@ == unready_at(failure@, *bound, now, terminal_cause, attempts_of(diagnostic_attempts@)),
{
    let mut failure = failure;
    failure.timing = Some(bound.timing(now, "before_readiness_wait", terminal_cause));
    failure.diagnostic_attempts = diagnostic_attempts;
    failure
}

/// Why a process cannot become ready, from its state.
pub open spec fn not_alive(status: StatusView) -> Option<UnreadyView> {
    if !status.queried {
        Some(
            unready(
                ReadinessFailureKind::Exited,
                match status.error {
                    Some(error) => error,
                    None => "failed to query server process group"@,
                },
            ),
        )
    } else if !status.alive {
        Some(
            unready(
                ReadinessFailureKind::Exited,
                match status.error {
                    Some(error) => error,
                    None => "server process group exited before readiness"@,
                },
            ),
        )
    } else {
        None
    }
}

/// Whether a check found what the specification says.
pub open spec fn refused(r: Result<(), ReadinessFailure>, expected: Option<UnreadyView>) -> bool {
    match expected {
        Some(failure) => r matches Err(found) && found@ == failure,
        None => r is Ok,
    }
}

/// Refuses a process that is not known to be alive.
pub fn ensure_alive(status: ProcessStatus) -> (r: Result<(), ReadinessFailure>)
    ensures
        refused(r, not_alive(status@)),
{
    if !status.queried {
        let message = match status.error {
            Some(error) => error,
            None => "failed to query server process group".to_owned(),
        };
        return Err(readiness_failure(ReadinessFailureKind::Exited, message));
    }
    if !status.alive {
        let message = match status.error {
            Some(error) => error,
            None => "server process group exited before readiness".to_owned(),
        };
        return Err(readiness_failure(ReadinessFailureKind::Exited, message));
    }
    Ok(())
}

/// The words for a wait whose time is up.
pub open spec fn timeout_words(timeout_seconds: Option<u64>, last_error: Seq<char>) -> Seq<char> {
    "server did not become ready within "@ + decimal(
        match timeout_seconds {
            Some(seconds) => seconds as nat,
            None => 0,
        },
    ) + " seconds; last probe error: "@ + last_error
}

/// Refuses to go on with a wait whose time is up.
pub fn ensure_readiness_active(
    bound: &OperationBound,
    now: u128,
    timeout_seconds: Option<u64>,
    last_error: &str,
) -> (r: Result<(), ReadinessFailure>)
    ensures
        refused(
            r,
            if bound.kind.left_at(now) is Expired {
                Some(
                    unready(
                        ReadinessFailureKind::Timeout,
                        timeout_words(timeout_seconds, last_error@),
                    ),
                )
            } else {
                None
            },
        ),
{
    if !bound.is_expired(now) {
        return Ok(());
    }
    let seconds: u64 = match timeout_seconds {
        Some(seconds) => seconds,
        None => 0,
    };
    Err(
        readiness_failure(
            ReadinessFailureKind::Timeout,
            cat4(
                "server did not become ready within ",
                to_decimal(seconds).as_str(),
                " seconds; last probe error: ",
                last_error,
            ),
        ),
    )
}

/// The time that a probe has left.
pub fn attempt_remaining(attempt: &AttemptBound, now: u128) -> (r: Result<u128, String>)
    ensures
        match attempt.kind.left_at(now) {
            Remaining::Finite(left) => r == Ok::<u128, String>(left),
            Remaining::Expired => r matches Err(found) && found@ == expired_words(),
            Remaining::Unbounded => r matches Err(found) && found@
                == "bounded readiness attempt was unexpectedly unbounded"@,
        },
{
    match attempt.remaining_at(now) {
        Remaining::Finite(left) => Ok(left),
        Remaining::Expired => Err("readiness operation deadline expired".to_owned()),
        Remaining::Unbounded => Err(
            "bounded readiness attempt was unexpectedly unbounded".to_owned(),
        ),
    }
}

/// Reads the clock of a server that became ready. `clock` is the time since the
/// Unix epoch in milliseconds, or why there is none.
pub fn unix_time_millis(clock: &Result<u64, String>) -> (r: Result<u64, ReadinessFailure>)
    ensures
        match *clock {
            Ok(millis) => r matches Ok(found) && found == millis,
            Err(error) => r matches Err(found) && found@ == clock_failure(error@),
        },
{
    match clock {
        Ok(millis) => Ok(*millis),
        Err(error) => Err(
            readiness_failure(
                ReadinessFailureKind::Exited,
                cat2("system clock is before Unix epoch: ", error.as_str()),
            ),
        ),
    }
}

/// A server whose time of readiness cannot be told.
pub open spec fn clock_failure(error: Seq<char>) -> UnreadyView {
    unready(ReadinessFailureKind::Exited, "system clock is before Unix epoch: "@ + error)
}

// ---------------------------------------------------------------------------
// The state of a wait

/// What a wait for readiness is about to be told.
#[derive(Debug)]
pub enum WaitPhase {
    /// That a turn begins.
    Turn,
    /// How the process stands.
    Status,
    /// What came of the probe of the endpoint.
    Probe,
    /// What the registry holds, after a probe that succeeded within its bound.
    Registry { public_bound_ms: u64 },
    /// What the clocks show, after the endpoint answered.
    Answered,
    /// What the clocks show, after the registry matched.
    Matched { matched: Vec<TargetRegistryMatchEvidence> },
    /// That the error of the turn was reported.
    Report { last_error: String },
    /// Nothing any more.
    Over,
}

/// What a wait for readiness is about to be told, as values.
#[verifier::ext_equal]
pub enum PhaseView {
    Turn,
    Status,
    Probe,
    Registry { public_bound_ms: u64 },
    Answered,
    Matched { matched: Seq<MatchView> },
    Report { last_error: Seq<char> },
    Over,
}

impl View for WaitPhase {
    type V = PhaseView;

    open spec fn view(&self) -> PhaseView {
        match *self {
            WaitPhase::Turn => PhaseView::Turn,
            WaitPhase::Status => PhaseView::Status,
            WaitPhase::Probe => PhaseView::Probe,
            WaitPhase::Registry { public_bound_ms } => PhaseView::Registry { public_bound_ms },
            WaitPhase::Answered => PhaseView::Answered,
            WaitPhase::Matched { matched } => PhaseView::Matched { matched: matches_of(matched@) },
            WaitPhase::Report { last_error } => PhaseView::Report { last_error: last_error@ },
            WaitPhase::Over => PhaseView::Over,
        }
    }
}

/// A wait for readiness.
#[derive(Debug)]
pub struct ReadinessWait {
    pub bound: OperationBound,
    pub timeout_seconds: Option<u64>,
    pub attempts: u32,
    /// The probes of the last turn.
    pub diagnostic_attempts: Vec<ReadinessAttemptEvidence>,
    pub probe_interval: u128,
    pub phase: WaitPhase,
}

/// A wait for readiness, as values.
#[verifier::ext_equal]
pub struct WaitView {
    pub bound: OperationBound,
    pub timeout_seconds: Option<u64>,
    pub attempts: u32,
    pub diagnostic_attempts: Seq<AttemptView>,
    pub probe_interval: u128,
    pub phase: PhaseView,
}

impl View for ReadinessWait {
    type V = WaitView;

    open spec fn view(&self) -> WaitView {
        WaitView {
            bound: self.bound,
            timeout_seconds: self.timeout_seconds,
            attempts: self.attempts,
            diagnostic_attempts: attempts_of(self.diagnostic_attempts@),
            probe_interval: self.probe_interval,
            phase: self.phase@,
        }
    }
}

impl WaitView {
    /// The pause is at most the longest one, and the clocks are only asked for after
    /// probes that succeeded.
    pub open spec fn wf(self) -> bool {
        &&& self.probe_interval <= MAX_PROBE_INTERVAL
        &&& self.phase is Answered ==> {
            &&& self.diagnostic_attempts.len() == 1
            &&& succeeded_as(self.diagnostic_attempts[0], "http_readiness"@)
        }
        &&& self.phase is Matched ==> {
            &&& self.diagnostic_attempts.len() == 2
            &&& succeeded_as(self.diagnostic_attempts[0], "public_http_readiness"@)
            &&& succeeded_as(self.diagnostic_attempts[1], "target_registry"@)
        }
    }

    /// The wait in another phase.
    pub open spec fn to(self, phase: PhaseView) -> WaitView {
        WaitView { phase, ..self }
    }

    /// Whether a wait for an endpoint is about to be told the event.
    pub open spec fn expects(self, event: HttpEvent) -> bool {
        match self.phase {
            PhaseView::Turn => event is Turn,
            PhaseView::Status => event is Status,
            PhaseView::Probe => event is Probed,
            PhaseView::Answered => event is Answered,
            PhaseView::Report { .. } => event is Reported,
            _ => false,
        }
    }

    /// Whether a wait for an endpoint and its registry is about to be told the event.
    pub open spec fn expects_of_registry(self, event: RegistryEvent) -> bool {
        match self.phase {
            PhaseView::Turn => event is Turn,
            PhaseView::Status => event is Status,
            PhaseView::Probe => event is Probed,
            PhaseView::Registry { .. } => event is Registry,
            PhaseView::Matched { .. } => event is Answered,
            PhaseView::Report { .. } => event is Reported,
            _ => false,
        }
    }

    /// A failure that ends the wait.
    pub open spec fn failure(
        self,
        failure: UnreadyView,
        now: u128,
        cause: OperationTerminalCause,
    ) -> UnreadyView {
        unready_at(failure, self.bound, now, cause, self.diagnostic_attempts)
    }

    /// The end of a wait whose time is up.
    pub open spec fn timed_out(self, now: u128, last_error: Seq<char>) -> UnreadyView {
        self.failure(
            unready(
                ReadinessFailureKind::Timeout,
                timeout_words(self.timeout_seconds, last_error),
            ),
            now,
            OperationTerminalCause::TimedOut,
        )
    }

    /// The end of a wait that the user interrupted.
    pub open spec fn interrupted(self, now: u128) -> UnreadyView {
        self.failure(
            unready(ReadinessFailureKind::Interrupted, "server startup was interrupted"@),
            now,
            OperationTerminalCause::Interrupted,
        )
    }

    /// Why the wait cannot go on at an instant: the time counts before the
    /// interruption.
    pub open spec fn stopped(self, now: u128, interrupted: bool, last_error: Seq<char>) -> Option<
        UnreadyView,
    > {
        if self.bound.kind.left_at(now) is Expired {
            Some(self.timed_out(now, last_error))
        } else if interrupted {
            Some(self.interrupted(now))
        } else {
            None
        }
    }

    /// Why the wait cannot go on after a look at the process.
    pub open spec fn stopped_by(self, status: StatusView, now: u128, interrupted: bool) -> Option<
        UnreadyView,
    > {
        match self.stopped(
            now,
            interrupted,
            "the server process status attempt did not complete in time"@,
        ) {
            Some(failure) => Some(failure),
            None => match not_alive(status) {
                Some(failure) => Some(self.failure(failure, now, OperationTerminalCause::Failed)),
                None => None,
            },
        }
    }

    /// The error of the turn, where it has one to report.
    pub open spec fn last_error(self) -> Seq<char> {
        match self.phase {
            PhaseView::Report { last_error } => last_error,
            _ => Seq::empty(),
        }
    }

    /// The bound of the probe of the turn, once it succeeded.
    pub open spec fn public_bound_ms(self) -> u64 {
        match self.phase {
            PhaseView::Registry { public_bound_ms } => public_bound_ms,
            _ => 0,
        }
    }

    /// What the registry of the turn matched, once it did.
    pub open spec fn matched(self) -> Seq<MatchView> {
        match self.phase {
            PhaseView::Matched { matched } => matched,
            _ => Seq::empty(),
        }
    }

    /// The wait with one more turn of probes.
    pub open spec fn counted(self) -> WaitView {
        WaitView {
            attempts: if self.attempts == u32::MAX {
                u32::MAX
            } else {
                (self.attempts + 1) as u32
            },
            ..self
        }
    }

    /// The wait with the probes of its last turn.
    pub open spec fn probed(self, attempts: Seq<AttemptView>) -> WaitView {
        WaitView { diagnostic_attempts: attempts, ..self }
    }

    /// The time to sleep after a turn without success.
    pub open spec fn pause(self, now: u128) -> u128 {
        match self.bound.kind.left_at(now) {
            Remaining::Finite(left) => shorter(self.probe_interval, left),
            Remaining::Expired => 0,
            Remaining::Unbounded => self.probe_interval,
        }
    }

    /// The wait with its next pause: each is twice as long as the one before, up to
    /// the longest.
    pub open spec fn slower(self) -> WaitView {
        WaitView {
            probe_interval: if self.probe_interval * 2 <= MAX_PROBE_INTERVAL {
                (self.probe_interval * 2) as u128
            } else {
                MAX_PROBE_INTERVAL
            },
            ..self
        }
    }
}

/// A probe that succeeded.
pub open spec fn passed(operation: Seq<char>, effective_bound_ms: u64) -> AttemptView {
    AttemptView { operation, effective_bound_ms, succeeded: true, error: None }
}

/// A probe succeeded at the operation.
pub open spec fn succeeded_as(attempt: AttemptView, operation: Seq<char>) -> bool {
    attempt.operation == operation && attempt.succeeded && attempt.error is None
}

/// A probe that failed.
pub open spec fn missed(operation: Seq<char>, effective_bound_ms: u64, error: Seq<char>) -> AttemptView {
    AttemptView { operation, effective_bound_ms, succeeded: false, error: Some(error) }
}

fn attempt_evidence(operation: &str, effective_bound_ms: u64, error: Option<String>) -> (r:
    ReadinessAttemptEvidence)
    ensures
        r@ == match error {
            None => passed(operation@, effective_bound_ms),
            Some(text) => missed(operation@, effective_bound_ms, text@),
        },
{
    let succeeded: bool = error.is_none();
    ReadinessAttemptEvidence {
        operation: operation.to_owned(),
        effective_bound_ms,
        succeeded,
        error,
    }
}

fn copy_attempts(list: &Vec<ReadinessAttemptEvidence>) -> (r: Vec<ReadinessAttemptEvidence>)
    ensures
        attempts_of(r@) == attempts_of(list@),
{
    let mut out: Vec<ReadinessAttemptEvidence> = Vec::new();
    let mut i: usize = 0;
    while i < list.len()
        invariant
            i <= list@.len(),
            out@.len() == i,
            forall|j: int| 0 <= j < i ==> (#[trigger] out@[j])@ == list@[j]@,
        decreases list@.len() - i,
    {
        let copy = ReadinessAttemptEvidence {
            operation: list[i].operation.clone(),
            effective_bound_ms: list[i].effective_bound_ms,
            succeeded: list[i].succeeded,
            error: copy_text(&list[i].error),
        };
        out.push(copy);
        i += 1;
    }
    assert(attempts_of(out@) =~= attempts_of(list@));
    out
}

impl ReadinessWait {
    /// A wait that begins at an instant. Without a timeout it ends on readiness, on
    /// the end of the process, or on an interruption.
    pub fn new(timeout_seconds: Option<u64>, started_at: u128) -> (r: Self)
        ensures
            r@.wf(),
            r@ == (WaitView {
                bound: OperationBound {
                    kind: match timeout_seconds {
                        Some(seconds) => BoundKind::Finite {
                            started_at,
                            budget: (seconds * 1_000_000_000) as u128,
                        },
                        None => BoundKind::Unbounded { started_at },
                    },
                },
                timeout_seconds,
                attempts: 0,
                diagnostic_attempts: Seq::empty(),
                probe_interval: POLL_INTERVAL,
                phase: PhaseView::Turn,
            }),
    {
        let bound = match timeout_seconds {
            Some(seconds) => {
                let budget: u128 = seconds as u128 * 1_000_000_000;
                OperationBound::finite_at(started_at, budget)
            },
            None => OperationBound::unbounded(started_at),
        };
        let wait = ReadinessWait {
            bound,
            timeout_seconds,
            attempts: 0,
            diagnostic_attempts: Vec::new(),
            probe_interval: POLL_INTERVAL,
            phase: WaitPhase::Turn,
        };
        assert(attempts_of(wait.diagnostic_attempts@) =~= Seq::empty());
        wait
    }

    fn fail(&self, failure: ReadinessFailure, now: u128, cause: OperationTerminalCause) -> (r:
        ReadinessFailure)
        ensures
            r@ == self@.failure(failure@, now, cause),
    {
        timed_readiness_failure(
            failure,
            &self.bound,
            now,
            cause,
            copy_attempts(&self.diagnostic_attempts),
        )
    }

    fn check(&self, now: u128, interrupted: bool, last_error: &str) -> (r: Result<
        (),
        ReadinessFailure,
    >)
        ensures
            refused(r, self@.stopped(now, interrupted, last_error@)),
    {
        match ensure_readiness_active(&self.bound, now, self.timeout_seconds, last_error) {
            Err(failure) => {
                return Err(self.fail(failure, now, OperationTerminalCause::TimedOut));
            },
            Ok(()) => {},
        }
        if interrupted {
            let failure = readiness_failure(
                ReadinessFailureKind::Interrupted,
                "server startup was interrupted".to_owned(),
            );
            return Err(self.fail(failure, now, OperationTerminalCause::Interrupted));
        }
        Ok(())
    }

    fn check_status(&self, status: ProcessStatus, now: u128, interrupted: bool) -> (r: Result<
        (),
        ReadinessFailure,
    >)
        ensures
            refused(r, self@.stopped_by(status@, now, interrupted)),
    {
        match self.check(
            now,
            interrupted,
            "the server process status attempt did not complete in time",
        ) {
            Err(failure) => return Err(failure),
            Ok(()) => {},
        }
        match ensure_alive(status) {
            Err(failure) => Err(self.fail(failure, now, OperationTerminalCause::Failed)),
            Ok(()) => Ok(()),
        }
    }

    fn count(&mut self)
        ensures
            final(self)@ == old(self)@.counted(),
    {
        if self.attempts < u32::MAX {
            self.attempts = self.attempts + 1;
        }
    }

    /// Ends a turn without success: the wait fails where its time is up, and sleeps
    /// otherwise.
    fn settle(&mut self, now: u128) -> (r: Result<u128, ReadinessFailure>)
        requires
            old(self)@.wf(),
            old(self)@.phase is Report,
        ensures
            final(self)@.wf(),
            match old(self)@.stopped(now, false, old(self)@.last_error()) {
                Some(failure) => final(self)@ == old(self)@.to(PhaseView::Over) && (r matches Err(
                    found,
                ) && found@ == failure),
                None => final(self)@ == old(self)@.slower().to(PhaseView::Turn) && r == Ok::<
                    u128,
                    ReadinessFailure,
                >(old(self)@.pause(now)),
            },
    {
        let mut phase = WaitPhase::Over;
        std::mem::swap(&mut phase, &mut self.phase);
        let last_error = match phase {
            WaitPhase::Report { last_error } => last_error,
            _ => String::new(),
        };
        match self.check(now, false, last_error.as_str()) {
            Err(failure) => return Err(failure),
            Ok(()) => {},
        }
        let pause: u128 = match self.bound.remaining_at(now) {
            Remaining::Finite(left) => min_duration(self.probe_interval, left),
            Remaining::Expired => 0,
            Remaining::Unbounded => self.probe_interval,
        };
        if self.probe_interval <= MAX_PROBE_INTERVAL / 2 {
            self.probe_interval = self.probe_interval * 2;
        } else {
            self.probe_interval = MAX_PROBE_INTERVAL;
        }
        self.phase = WaitPhase::Turn;
        Ok(pause)
    }
}

// ---------------------------------------------------------------------------
// Readiness of a process

/// Whether a result is what the look at a process gives.
pub open spec fn process_ready(
    r: Result<ReadinessEvidence, ReadinessFailure>,
    bound: OperationBound,
    status: StatusView,
    clock: Result<u64, String>,
    now: u128,
) -> bool {
    match not_alive(status) {
        Some(failure) => r matches Err(found) && found@ == unready_at(
            failure,
            bound,
            now,
            OperationTerminalCause::Failed,
            Seq::empty(),
        ),
        None => match clock {
            Err(error) => r matches Err(found) && found@ == unready_at(
                clock_failure(error@),
                bound,
                now,
                OperationTerminalCause::Failed,
                Seq::empty(),
            ),
            Ok(millis) => r matches Ok(found) && found@ == (ReadinessView::ProcessAlive {
                ready_unix_ms: millis,
                timing: bound.timing_at(
                    now,
                    "before_process_alive_check"@,
                    OperationTerminalCause::Succeeded,
                ),
            }),
        },
    }
}

/// The readiness of a process that only has to be alive.
pub fn process_alive_ready(
    started_at: u128,
    status: ProcessStatus,
    clock: &Result<u64, String>,
    now: u128,
) -> (r: Result<ReadinessEvidence, ReadinessFailure>)
    ensures
        process_ready(
            r,
            OperationBound { kind: BoundKind::Unbounded { started_at } },
            status@,
            *clock,
            now,
        ),
{
    let bound = OperationBound::unbounded(started_at);
    let none: Vec<ReadinessAttemptEvidence> = Vec::new();
    assert(attempts_of(none@) =~= Seq::empty());
    match ensure_alive(status) {
        Err(failure) => {
            return Err(
                timed_readiness_failure(
                    failure,
                    &bound,
                    now,
                    OperationTerminalCause::Failed,
                    none,
                ),
            );
        },
        Ok(()) => {},
    }
    match unix_time_millis(clock) {
        Err(failure) => Err(
            timed_readiness_failure(failure, &bound, now, OperationTerminalCause::Failed, none),
        ),
        Ok(millis) => Ok(
            ReadinessEvidence::ProcessAlive {
                ready_unix_ms: millis,
                timing: bound.timing(
                    now,
                    "before_process_alive_check",
                    OperationTerminalCause::Succeeded,
                ),
            },
        ),
    }
}

// ---------------------------------------------------------------------------
// Readiness of an endpoint

/// What came of a step of a wait for an endpoint.
#[derive(Debug)]
pub enum HttpEvent {
    /// A turn begins.
    Turn { now: u128, interrupted: bool },
    /// The process was looked at.
    Status { status: ProcessStatus, now: u128, interrupted: bool },
    /// The endpoint was probed.
    Probed { effective_bound_ms: u64, outcome: Result<(), String> },
    /// The clocks were read after a probe that succeeded.
    Answered { clock: Result<u64, String>, now: u128 },
    /// The error of the turn was reported.
    Reported { now: u128 },
}

/// What to do next in a wait for an endpoint.
#[derive(Debug)]
pub enum HttpAction {
    QueryStatus,
    Probe,
    ReadClocks,
    /// Report the error of the turn.
    Report { last_error: String },
    /// Sleep, and begin a turn.
    Sleep { pause: u128 },
    Ready { evidence: ReadinessEvidence },
    Fail { failure: ReadinessFailure },
}

/// Whether an action ends a wait with the failure.
pub open spec fn http_fails(action: HttpAction, expected: UnreadyView) -> bool {
    action matches HttpAction::Fail { failure } && failure@ == expected
}

/// Whether an action, and the wait after it, are what an event calls for.
pub open spec fn http_step(
    before: WaitView,
    after: WaitView,
    action: HttpAction,
    url: Seq<char>,
    event: HttpEvent,
) -> bool {
    match event {
        HttpEvent::Turn { now, interrupted } => match before.stopped(
            now,
            interrupted,
            "no readiness probe completed"@,
        ) {
            Some(failure) => after == before.to(PhaseView::Over) && http_fails(action, failure),
            None => after == before.to(PhaseView::Status) && action is QueryStatus,
        },
        HttpEvent::Status { status, now, interrupted } => match before.stopped_by(
            status@,
            now,
            interrupted,
        ) {
            Some(failure) => after == before.to(PhaseView::Over) && http_fails(action, failure),
            None => after == before.counted().to(PhaseView::Probe) && action is Probe,
        },
        HttpEvent::Probed { effective_bound_ms, outcome } => match outcome {
            Ok(()) => after == before.probed(
                seq![passed("http_readiness"@, effective_bound_ms)],
            ).to(PhaseView::Answered) && action is ReadClocks,
            Err(error) => after == before.probed(
                seq![missed("http_readiness"@, effective_bound_ms, error@)],
            ).to(PhaseView::Report { last_error: error@ }) && (action matches HttpAction::Report {
                last_error,
            } && last_error@ == error@),
        },
        HttpEvent::Answered { clock, now } => after == before.to(PhaseView::Over) && match clock {
            Err(error) => http_fails(
                action,
                before.failure(clock_failure(error@), now, OperationTerminalCause::Failed),
            ),
            Ok(millis) => match before.stopped(
                now,
                false,
                "the readiness response completed after the deadline"@,
            ) {
                Some(failure) => http_fails(action, failure),
                None => action matches HttpAction::Ready { evidence } && evidence@ == (
                ReadinessView::Http {
                    url,
                    attempts: before.attempts,
                    ready_unix_ms: millis,
                    timing: before.bound.timing_at(
                        now,
                        "before_readiness_wait"@,
                        OperationTerminalCause::Succeeded,
                    ),
                    diagnostic_attempts: before.diagnostic_attempts,
                }),
            },
        },
        HttpEvent::Reported { now } => match before.stopped(now, false, before.last_error()) {
            Some(failure) => after == before.to(PhaseView::Over) && http_fails(action, failure),
            None => after == before.slower().to(PhaseView::Turn) && action == (HttpAction::Sleep {
                pause: before.pause(now),
            }),
        },
    }
}

/// The URL of a path on an endpoint.
pub open spec fn url_text(host: Seq<char>, port: u16, path: Seq<char>) -> Seq<char> {
    "http://"@ + host + ":"@ + decimal(port as nat) + path
}

/// The URL of a path on an endpoint.
pub fn readiness_url(host: &str, port: u16, path: &str) -> (r: String)
    ensures
        r@ == url_text(host@, port, path@),
{
    cat5("http://", host, ":", to_decimal(port as u64).as_str(), path)
}

/// One step of waiting until an endpoint answers. A turn looks at the process and
/// probes the endpoint; the time and an interruption are looked at before each.
pub fn wait_http_ready(
    wait: &mut ReadinessWait,
    host: &str,
    port: u16,
    path: &str,
    event: HttpEvent,
) -> (r: HttpAction)
    requires
        old(wait)@.wf(),
        old(wait)@.expects(event),
    ensures
        final(wait)@.wf(),
        http_step(old(wait)@, final(wait)@, r, url_text(host@, port, path@), event),
{
    match event {
        HttpEvent::Turn { now, interrupted } => match wait.check(
            now,
            interrupted,
            "no readiness probe completed",
        ) {
            Err(failure) => {
                wait.phase = WaitPhase::Over;
                HttpAction::Fail { failure }
            },
            Ok(()) => {
                wait.phase = WaitPhase::Status;
                HttpAction::QueryStatus
            },
        },
        HttpEvent::Status { status, now, interrupted } => match wait.check_status(
            status,
            now,
            interrupted,
        ) {
            Err(failure) => {
                wait.phase = WaitPhase::Over;
                HttpAction::Fail { failure }
            },
            Ok(()) => {
                wait.count();
                wait.phase = WaitPhase::Probe;
                HttpAction::Probe
            },
        },
        HttpEvent::Probed { effective_bound_ms, outcome } => match outcome {
            Ok(()) => {
                let attempt = attempt_evidence("http_readiness", effective_bound_ms, None);
                let attempts = vec![attempt];
                assert(attempts_of(attempts@) =~= seq![attempt@]);
                wait.diagnostic_attempts = attempts;
                wait.phase = WaitPhase::Answered;
                HttpAction::ReadClocks
            },
            Err(error) => {
                let attempt = attempt_evidence(
                    "http_readiness",
                    effective_bound_ms,
                    Some(error.clone()),
                );
                let attempts = vec![attempt];
                assert(attempts_of(attempts@) =~= seq![attempt@]);
                wait.diagnostic_attempts = attempts;
                wait.phase = WaitPhase::Report { last_error: error.clone() };
                HttpAction::Report { last_error: error }
            },
        },
        HttpEvent::Answered { clock, now } => {
            wait.phase = WaitPhase::Over;
            let ready_unix_ms: u64 = match unix_time_millis(&clock) {
                Ok(millis) => millis,
                Err(failure) => {
                    return HttpAction::Fail {
                        failure: wait.fail(failure, now, OperationTerminalCause::Failed),
                    };
                },
            };
            match wait.check(now, false, "the readiness response completed after the deadline") {
                Err(failure) => HttpAction::Fail { failure },
                Ok(()) => HttpAction::Ready {
                    evidence: ReadinessEvidence::Http {
                        url: readiness_url(host, port, path),
                        attempts: wait.attempts,
                        ready_unix_ms,
                        timing: wait.bound.timing(
                            now,
                            "before_readiness_wait",
                            OperationTerminalCause::Succeeded,
                        ),
                        diagnostic_attempts: copy_attempts(&wait.diagnostic_attempts),
                    },
                },
            }
        },
        HttpEvent::Reported { now } => match wait.settle(now) {
            Err(failure) => HttpAction::Fail { failure },
            Ok(pause) => HttpAction::Sleep { pause },
        },
    }
}

// ---------------------------------------------------------------------------
// Readiness of an endpoint and its registry

/// What came of a step of a wait for an endpoint and its registry.
#[derive(Debug)]
pub enum RegistryEvent {
    /// A turn begins.
    Turn { now: u128, interrupted: bool },
    /// The process was looked at.
    Status { status: ProcessStatus, now: u128, interrupted: bool },
    /// The endpoint was probed.
    Probed { effective_bound_ms: u64, outcome: Result<(), String> },
    /// The registry was read.
    Registry {
        effective_bound_ms: u64,
        outcome: Result<Vec<TargetRegistryMatchEvidence>, String>,
    },
    /// The clocks were read after the registry matched.
    Answered { clock: Result<u64, String>, now: u128 },
    /// The error of the turn was reported.
    Reported { now: u128 },
}

/// What to do next in a wait for an endpoint and its registry.
#[derive(Debug)]
pub enum RegistryAction {
    QueryStatus,
    Probe,
    ReadRegistry,
    ReadClocks,
    /// Report the error of the turn.
    Report { last_error: String },
    /// Sleep, and begin a turn.
    Sleep { pause: u128 },
    Ready { evidence: ReadinessEvidence },
    Fail { failure: ReadinessFailure },
}

/// Whether an action ends a wait with the failure.
pub open spec fn registry_fails(action: RegistryAction, expected: UnreadyView) -> bool {
    action matches RegistryAction::Fail { failure } && failure@ == expected
}

/// Whether an action, and the wait after it, are what an event calls for.
pub open spec fn registry_step(
    before: WaitView,
    after: WaitView,
    action: RegistryAction,
    public_url: Seq<char>,
    registry_url: Seq<char>,
    event: RegistryEvent,
) -> bool {
    match event {
        RegistryEvent::Turn { now, interrupted } => match before.stopped(
            now,
            interrupted,
            "no readiness probe completed"@,
        ) {
            Some(failure) => after == before.to(PhaseView::Over) && registry_fails(action, failure),
            None => after == before.to(PhaseView::Status) && action is QueryStatus,
        },
        RegistryEvent::Status { status, now, interrupted } => match before.stopped_by(
            status@,
            now,
            interrupted,
        ) {
            Some(failure) => after == before.to(PhaseView::Over) && registry_fails(action, failure),
            None => after == before.counted().to(PhaseView::Probe) && action is Probe,
        },
        RegistryEvent::Probed { effective_bound_ms, outcome } => match outcome {
            Ok(()) => after == before.to(
                PhaseView::Registry { public_bound_ms: effective_bound_ms },
            ) && action is ReadRegistry,
            Err(error) => after == before.probed(
                seq![missed("public_http_readiness"@, effective_bound_ms, error@)],
            ).to(
                PhaseView::Report { last_error: "public readiness probe failed: "@ + error@ },
            ) && (action matches RegistryAction::Report { last_error } && last_error@
                == "public readiness probe failed: "@ + error@),
        },
        RegistryEvent::Registry { effective_bound_ms, outcome } => match outcome {
            Ok(matched) => after == before.probed(
                seq![
                    passed("public_http_readiness"@, before.public_bound_ms()),
                    passed("target_registry"@, effective_bound_ms),
                ],
            ).to(PhaseView::Matched { matched: matches_of(matched@) }) && action is ReadClocks,
            Err(error) => after == before.probed(
                seq![
                    passed("public_http_readiness"@, before.public_bound_ms()),
                    missed("target_registry"@, effective_bound_ms, error@),
                ],
            ).to(PhaseView::Report { last_error: error@ }) && (
            action matches RegistryAction::Report { last_error } && last_error@ == error@),
        },
        RegistryEvent::Answered { clock, now } => after == before.to(PhaseView::Over)
            && match clock {
            Err(error) => registry_fails(
                action,
                before.failure(clock_failure(error@), now, OperationTerminalCause::Failed),
            ),
            Ok(millis) => match before.stopped(
                now,
                false,
                "the target registry response completed after the deadline"@,
            ) {
                Some(failure) => registry_fails(action, failure),
                None => action matches RegistryAction::Ready { evidence } && evidence@ == (
                ReadinessView::HttpTargetRegistry {
                    readiness_url: public_url,
                    registry_url,
                    attempts: before.attempts,
                    ready_unix_ms: millis,
                    matched_targets: before.matched(),
                    timing: before.bound.timing_at(
                        now,
                        "before_readiness_wait"@,
                        OperationTerminalCause::Succeeded,
                    ),
                    diagnostic_attempts: before.diagnostic_attempts,
                }),
            },
        },
        RegistryEvent::Reported { now } => match before.stopped(now, false, before.last_error()) {
            Some(failure) => after == before.to(PhaseView::Over) && registry_fails(action, failure),
            None => after == before.slower().to(PhaseView::Turn) && action == (
            RegistryAction::Sleep { pause: before.pause(now) }),
        },
    }
}

/// One step of waiting until an endpoint answers and its registry reports the
/// expected targets. The registry is only read in a turn in which the endpoint
/// answered.
pub fn wait_http_target_registry_ready(
    wait: &mut ReadinessWait,
    host: &str,
    port: u16,
    plan: &TargetRegistryPlan,
    event: RegistryEvent,
) -> (r: RegistryAction)
    requires
        old(wait)@.wf(),
        old(wait)@.expects_of_registry(event),
    ensures
        final(wait)@.wf(),
        registry_step(
            old(wait)@,
            final(wait)@,
            r,
            url_text(host@, port, plan.readiness_path@),
            url_text(host@, port, plan.registry_path@),
            event,
        ),
{
    match event {
        RegistryEvent::Turn { now, interrupted } => match wait.check(
            now,
            interrupted,
            "no readiness probe completed",
        ) {
            Err(failure) => {
                wait.phase = WaitPhase::Over;
                RegistryAction::Fail { failure }
            },
            Ok(()) => {
                wait.phase = WaitPhase::Status;
                RegistryAction::QueryStatus
            },
        },
        RegistryEvent::Status { status, now, interrupted } => match wait.check_status(
            status,
            now,
            interrupted,
        ) {
            Err(failure) => {
                wait.phase = WaitPhase::Over;
                RegistryAction::Fail { failure }
            },
            Ok(()) => {
                wait.count();
                wait.phase = WaitPhase::Probe;
                RegistryAction::Probe
            },
        },
        RegistryEvent::Probed { effective_bound_ms, outcome } => match outcome {
            Ok(()) => {
                wait.phase = WaitPhase::Registry { public_bound_ms: effective_bound_ms };
                RegistryAction::ReadRegistry
            },
            Err(error) => {
                let message = cat2("public readiness probe failed: ", error.as_str());
                let attempt = attempt_evidence(
                    "public_http_readiness",
                    effective_bound_ms,
                    Some(error),
                );
                let attempts = vec![attempt];
                assert(attempts_of(attempts@) =~= seq![attempt@]);
                wait.diagnostic_attempts = attempts;
                wait.phase = WaitPhase::Report { last_error: message.clone() };
                RegistryAction::Report { last_error: message }
            },
        },
        RegistryEvent::Registry { effective_bound_ms, outcome } => {
            let public_bound_ms: u64 = match &wait.phase {
                WaitPhase::Registry { public_bound_ms } => *public_bound_ms,
                _ => 0,
            };
            let public = attempt_evidence("public_http_readiness", public_bound_ms, None);
            match outcome {
                Ok(matched) => {
                    let attempt = attempt_evidence("target_registry", effective_bound_ms, None);
                    let attempts = vec![public, attempt];
                    assert(attempts_of(attempts@) =~= seq![public@, attempt@]);
                    wait.diagnostic_attempts = attempts;
                    wait.phase = WaitPhase::Matched { matched };
                    RegistryAction::ReadClocks
                },
                Err(error) => {
                    let attempt = attempt_evidence(
                        "target_registry",
                        effective_bound_ms,
                        Some(error.clone()),
                    );
                    let attempts = vec![public, attempt];
                    assert(attempts_of(attempts@) =~= seq![public@, attempt@]);
                    wait.diagnostic_attempts = attempts;
                    wait.phase = WaitPhase::Report { last_error: error.clone() };
                    RegistryAction::Report { last_error: error }
                },
            }
        },
        RegistryEvent::Answered { clock, now } => {
            let mut phase = WaitPhase::Over;
            std::mem::swap(&mut phase, &mut wait.phase);
            let matched_targets = match phase {
                WaitPhase::Matched { matched } => matched,
                _ => Vec::new(),
            };
            let ready_unix_ms: u64 = match unix_time_millis(&clock) {
                Ok(millis) => millis,
                Err(failure) => {
                    return RegistryAction::Fail {
                        failure: wait.fail(failure, now, OperationTerminalCause::Failed),
                    };
                },
            };
            match wait.check(
                now,
                false,
                "the target registry response completed after the deadline",
            ) {
                Err(failure) => RegistryAction::Fail { failure },
                Ok(()) => RegistryAction::Ready {
                    evidence: ReadinessEvidence::HttpTargetRegistry {
                        readiness_url: readiness_url(host, port, plan.readiness_path.as_str()),
                        registry_url: readiness_url(host, port, plan.registry_path.as_str()),
                        attempts: wait.attempts,
                        ready_unix_ms,
                        matched_targets,
                        timing: wait.bound.timing(
                            now,
                            "before_readiness_wait",
                            OperationTerminalCause::Succeeded,
                        ),
                        diagnostic_attempts: copy_attempts(&wait.diagnostic_attempts),
                    },
                },
            }
        },
        RegistryEvent::Reported { now } => match wait.settle(now) {
            Err(failure) => RegistryAction::Fail { failure },
            Ok(pause) => RegistryAction::Sleep { pause },
        },
    }
}

// ---------------------------------------------------------------------------
// Laws

/// No wait is told ready after its time was up, whatever the probes said.
pub proof fn law_ready_only_within_the_deadline(
    before: WaitView,
    after: WaitView,
    action: HttpAction,
    url: Seq<char>,
    event: HttpEvent,
)
    requires
        http_step(before, after, action, url, event),
        action is Ready,
    ensures
        event matches HttpEvent::Answered { now, .. } && !(before.bound.kind.left_at(now)
            is Expired),
{
}

/// No wait for a registry is told ready after its time was up.
pub proof fn law_registry_ready_only_within_the_deadline(
    before: WaitView,
    after: WaitView,
    action: RegistryAction,
    public_url: Seq<char>,
    registry_url: Seq<char>,
    event: RegistryEvent,
)
    requires
        registry_step(before, after, action, public_url, registry_url, event),
        action is Ready,
    ensures
        event matches RegistryEvent::Answered { now, .. } && !(before.bound.kind.left_at(now)
            is Expired),
{
}

/// A wait is told ready only right after the endpoint answered a probe, and carries
/// that probe.
pub proof fn law_ready_follows_an_answer(
    first: WaitView,
    second: WaitView,
    third: WaitView,
    probing: HttpAction,
    ending: HttpAction,
    url: Seq<char>,
    probed: HttpEvent,
    answered: HttpEvent,
)
    requires
        first.expects(probed),
        http_step(first, second, probing, url, probed),
        second.expects(answered),
        http_step(second, third, ending, url, answered),
        ending is Ready,
    ensures
        probed matches HttpEvent::Probed { effective_bound_ms, outcome } && outcome is Ok
            && (ending matches HttpAction::Ready { evidence } && (
        evidence@ matches ReadinessView::Http { diagnostic_attempts, .. } && diagnostic_attempts
            == seq![passed("http_readiness"@, effective_bound_ms)])),
        third.phase is Over,
{
}

/// A wait for a registry is told ready only right after its registry was accepted,
/// in a turn in which the endpoint answered; what it carries reports every expected
/// target, in order, as healthy and with its expected bootstrap port.
pub proof fn law_ready_registry_reports_every_target(
    views: (WaitView, WaitView, WaitView, WaitView),
    actions: (RegistryAction, RegistryAction, RegistryAction),
    events: (RegistryEvent, RegistryEvent, RegistryEvent),
    public_url: Seq<char>,
    registry_url: Seq<char>,
    response: Result<Seq<u8>, Seq<char>>,
    plan: TargetRegistryPlan,
    read_at: u128,
    i: int,
)
    requires
        views.0.expects_of_registry(events.0),
        registry_step(views.0, views.1, actions.0, public_url, registry_url, events.0),
        views.1.expects_of_registry(events.1),
        registry_step(views.1, views.2, actions.1, public_url, registry_url, events.1),
        views.2.expects_of_registry(events.2),
        registry_step(views.2, views.3, actions.2, public_url, registry_url, events.2),
        actions.2 is Ready,
        events.1 matches RegistryEvent::Registry { outcome, .. } ==> matches_are(
            outcome,
            registry_read(response, plan, views.1.bound, read_at),
        ),
        0 <= i < plan.expected_targets@.len(),
    ensures
        events.0 matches RegistryEvent::Probed { outcome, .. } && outcome is Ok,
        events.1 matches RegistryEvent::Registry { outcome: Ok(matched), .. } && (
        actions.2 matches RegistryAction::Ready { evidence } && (
        evidence@ matches ReadinessView::HttpTargetRegistry { matched_targets, .. } && {
            &&& matched_targets == matches_of(matched@)
            &&& matched_targets.len() == plan.expected_targets@.len()
            &&& matched_targets[i].url == plan.expected_targets@[i].url@
            &&& matched_targets[i].role == plan.expected_targets@[i].role@
            &&& matched_targets[i].healthy
            &&& plan.expected_targets@[i].bootstrap_port is Some ==> matched_targets[i].bootstrap_port
                == plan.expected_targets@[i].bootstrap_port
        })),
        views.3.phase is Over,
{
    assert(events.1 matches RegistryEvent::Registry { outcome, .. } && outcome is Ok);
    let tree = document_told(response->Ok_0, "target registry"@)->Ok_0;
    law_accepted_registry_reports_every_target(tree, plan, i);
}

/// A probe is made only of a process that was seen alive in the same turn, within
/// the time and without an interruption.
pub proof fn law_probe_follows_a_live_process(
    before: WaitView,
    after: WaitView,
    action: HttpAction,
    url: Seq<char>,
    event: HttpEvent,
)
    requires
        http_step(before, after, action, url, event),
        action is Probe,
    ensures
        event matches HttpEvent::Status { status, now, interrupted } && status@.alive && !interrupted
            && !(before.bound.kind.left_at(now) is Expired),
{
}

/// A wait without a budget never times out.
pub proof fn law_unbounded_wait_never_times_out(
    wait: WaitView,
    now: u128,
    interrupted: bool,
    last_error: Seq<char>,
)
    requires
        wait.bound.kind is Unbounded,
    ensures
        wait.stopped(now, interrupted, last_error) matches Some(failure) ==> failure.kind
            is Interrupted,
{
}

/// The pause between probes grows up to the longest and never outlasts the time
/// that is left.
pub proof fn law_pauses_are_bounded(wait: WaitView, now: u128)
    requires
        wait.wf(),
    ensures
        wait.pause(now) <= MAX_PROBE_INTERVAL,
        wait.bound.kind.left_at(now) matches Remaining::Finite(left) ==> wait.pause(now) <= left,
        wait.probe_interval <= wait.slower().probe_interval <= MAX_PROBE_INTERVAL,
{
}

/// A wait for an endpoint is told ready with what is true of it: the address that was
/// asked, the turns that it took and the time of the clock.
pub proof fn law_ready_endpoint_is_told_as_it_was(
    before: WaitView,
    after: WaitView,
    action: HttpAction,
    url: Seq<char>,
    event: HttpEvent,
)
    requires
        http_step(before, after, action, url, event),
        action is Ready,
    ensures
        event matches HttpEvent::Answered { clock, .. } && (clock matches Ok(millis) && (
        action matches HttpAction::Ready { evidence } && (evidence@ matches ReadinessView::Http {
            url: asked,
            attempts,
            ready_unix_ms,
            ..
        } && asked == url && attempts == before.attempts && ready_unix_ms == millis))),
{
}

/// A wait for an endpoint and its registry is told ready with both addresses, the turns
/// that it took and the time of the clock.
pub proof fn law_ready_registry_is_told_as_it_was(
    before: WaitView,
    after: WaitView,
    action: RegistryAction,
    public_url: Seq<char>,
    registry_url: Seq<char>,
    event: RegistryEvent,
)
    requires
        registry_step(before, after, action, public_url, registry_url, event),
        action is Ready,
    ensures
        event matches RegistryEvent::Answered { clock, .. } && (clock matches Ok(millis) && (
        action matches RegistryAction::Ready { evidence } && (
        evidence@ matches ReadinessView::HttpTargetRegistry {
            readiness_url,
            registry_url: asked,
            attempts,
            ready_unix_ms,
            ..
        } && readiness_url == public_url && asked == registry_url && attempts == before.attempts
            && ready_unix_ms == millis))),
{
}

/// A wait fails for what ended it, the time before the interruption and both before the
/// process; it fails only where one of the three did.
pub proof fn law_wait_fails_for_what_ended_it(
    wait: WaitView,
    status: StatusView,
    now: u128,
    interrupted: bool,
)
    ensures
        ({
            let expired = wait.bound.kind.left_at(now) is Expired;
            let alive = status.queried && status.alive;
            let end = wait.stopped_by(status, now, interrupted);
            &&& end is None <==> !expired && !interrupted && alive
            &&& expired ==> (end matches Some(failure) && failure.kind is Timeout)
            &&& !expired && interrupted ==> (end matches Some(failure) && failure.kind
                is Interrupted)
            &&& !expired && !interrupted && !alive ==> (end matches Some(failure) && failure.kind
                is Exited)
            &&& !expired && !interrupted && !alive && status.error is Some ==> (
            end matches Some(failure) && failure.message == status.error->0)
            &&& end matches Some(failure) ==> failure.diagnostic_attempts
                == wait.diagnostic_attempts && failure.timing is Some
        }),
{
}

/// A turn of a wait goes on to the next one: the probe is counted, a probe that failed is
/// reported with its error and kept, and after the report the wait sleeps and starts over,
/// unless it was ended.
pub proof fn law_failed_probe_is_reported_and_tried_again(
    before: WaitView,
    after: WaitView,
    action: HttpAction,
    url: Seq<char>,
    event: HttpEvent,
)
    requires
        http_step(before, after, action, url, event),
        !(action is Fail),
        !(action is Ready),
    ensures
        event is Turn ==> action is QueryStatus && after.attempts == before.attempts,
        event is Status && before.attempts < u32::MAX ==> action is Probe && after.attempts
            == before.attempts + 1,
        event matches HttpEvent::Probed { effective_bound_ms, outcome } ==> {
            &&& after.attempts == before.attempts
            &&& after.diagnostic_attempts.len() == 1
            &&& after.diagnostic_attempts[0].effective_bound_ms == effective_bound_ms
            &&& after.diagnostic_attempts[0].succeeded == outcome is Ok
            &&& outcome matches Err(error) ==> {
                &&& action matches HttpAction::Report { last_error }
                &&& last_error@ == error@
                &&& after.diagnostic_attempts[0].error == Some(error@)
            }
            &&& outcome is Ok ==> action is ReadClocks
        },
        event matches HttpEvent::Reported { now } ==> {
            &&& action matches HttpAction::Sleep { pause }
            &&& pause <= before.probe_interval
            &&& after.expects(HttpEvent::Turn { now, interrupted: false })
            &&& after.attempts == before.attempts
            &&& before.probe_interval * 2 <= MAX_PROBE_INTERVAL ==> after.probe_interval
                == before.probe_interval * 2
        },
{
}

/// A turn of a wait for a registry goes on in the same way; the registry is asked only
/// after the endpoint answered, and both probes are kept.
pub proof fn law_registry_is_asked_after_its_endpoint(
    before: WaitView,
    after: WaitView,
    action: RegistryAction,
    public_url: Seq<char>,
    registry_url: Seq<char>,
    event: RegistryEvent,
)
    requires
        registry_step(before, after, action, public_url, registry_url, event),
        !(action is Fail),
        !(action is Ready),
    ensures
        event is Turn ==> action is QueryStatus,
        event is Status && before.attempts < u32::MAX ==> action is Probe && after.attempts
            == before.attempts + 1,
        event matches RegistryEvent::Probed { outcome, .. } ==> {
            &&& outcome is Ok <==> action is ReadRegistry
            &&& outcome matches Err(error) ==> {
                &&& action is Report
                &&& after.diagnostic_attempts.len() == 1
                &&& !after.diagnostic_attempts[0].succeeded
                &&& after.diagnostic_attempts[0].error == Some(error@)
            }
        },
        event matches RegistryEvent::Registry { outcome, .. } ==> {
            &&& outcome is Ok <==> action is ReadClocks
            &&& after.diagnostic_attempts.len() == 2
            &&& after.diagnostic_attempts[0].succeeded
            &&& after.diagnostic_attempts[1].succeeded == outcome is Ok
            &&& outcome matches Err(error) ==> {
                &&& action matches RegistryAction::Report { last_error }
                &&& last_error@ == error@
                &&& after.diagnostic_attempts[1].error == Some(error@)
            }
        },
        event matches RegistryEvent::Reported { now } ==> {
            &&& action matches RegistryAction::Sleep { pause }
            &&& pause <= before.probe_interval
            &&& after.expects_of_registry(RegistryEvent::Turn { now, interrupted: false })
        },
{
}

/// A process without an endpoint is ready exactly where it is alive and the clock can be
/// read; it is ready at the time of the clock.
pub proof fn law_live_process_is_ready(
    r: Result<ReadinessEvidence, ReadinessFailure>,
    bound: OperationBound,
    status: StatusView,
    clock: Result<u64, String>,
    now: u128,
)
    requires
        process_ready(r, bound, status, clock, now),
    ensures
        r is Ok <==> status.queried && status.alive && clock is Ok,
        r matches Ok(evidence) ==> (evidence@ matches ReadinessView::ProcessAlive {
            ready_unix_ms,
            ..
        } && ready_unix_ms == clock->Ok_0),
        r matches Err(failure) ==> failure@.kind is Exited,
{
}

} // verus!
