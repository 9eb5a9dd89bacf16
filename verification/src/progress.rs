//! The operator's progress lines: phases, quiet periods and heartbeats.

use crate::text::{cat4, cat5, copy_text, decimal, to_decimal, to_decimal_wide};
use crate::time_bound::{saturating_since, since};
use vstd::prelude::*;
use vstd::string::*;

verus! {

/// The quiet period before a first report, in nanoseconds.
pub const FIRST_REPORT_AFTER: u128 = 10_000_000_000;

/// The time between heartbeats, in nanoseconds.
pub const HEARTBEAT_EVERY: u128 = 30_000_000_000;

/// Whether a command reports at once or stays quiet first.
#[derive(Clone, Copy, Debug, PartialEq, Eq, Structural)]
pub enum Mode {
    Immediate,
    Delayed,
}

/// What a command is doing.
#[derive(Debug)]
pub struct Phase {
    pub name: String,
    pub item: Option<String>,
    pub position: Option<(usize, usize)>,
    pub lock: Option<String>,
    pub readiness_failure: Option<String>,
    pub record: Option<String>,
    pub record_dir: Option<String>,
    pub log: Option<String>,
}

/// Whether the optional text is the given one.
pub open spec fn is_text(value: Option<String>, text: Seq<char>) -> bool {
    value is Some && value->0@ == text
}

impl Phase {
    /// A phase with a name and no more.
    pub fn named(name: &str) -> (r: Self)
        ensures
            r.name@ == name@,
            r.item is None,
            r.position is None,
            r.lock is None,
            r.readiness_failure is None,
            r.record is None,
            r.record_dir is None,
            r.log is None,
    {
        Phase {
            name: name.to_owned(),
            item: None,
            position: None,
            lock: None,
            readiness_failure: None,
            record: None,
            record_dir: None,
            log: None,
        }
    }

    /// The phase at one of several items.
    pub fn item(self, item: &str, index: usize, total: usize) -> (r: Self)
        ensures
            is_text(r.item, item@),
            r == (Phase { item: r.item, position: Some((index, total)), ..self }),
    {
        Phase { item: Some(item.to_owned()), position: Some((index, total)), ..self }
    }

    /// The phase at an item.
    pub fn current_item(self, item: &str) -> (r: Self)
        ensures
            is_text(r.item, item@),
            r == (Phase { item: r.item, ..self }),
    {
        Phase { item: Some(item.to_owned()), ..self }
    }

    /// The phase at a lock.
    pub fn lock(self, path: &str) -> (r: Self)
        ensures
            is_text(r.lock, path@),
            r == (Phase { lock: r.lock, ..self }),
    {
        Phase { lock: Some(path.to_owned()), ..self }
    }

    /// The phase with a log.
    pub fn log(self, path: &str) -> (r: Self)
        ensures
            is_text(r.log, path@),
            r == (Phase { log: r.log, ..self }),
    {
        Phase { log: Some(path.to_owned()), ..self }
    }

    /// The phase with a record.
    pub fn record(self, id: &str, dir: &str) -> (r: Self)
        ensures
            is_text(r.record, id@),
            is_text(r.record_dir, dir@),
            r == (Phase { record: r.record, record_dir: r.record_dir, ..self }),
    {
        Phase { record: Some(id.to_owned()), record_dir: Some(dir.to_owned()), ..self }
    }
}

// ---------------------------------------------------------------------------
// Lines

/// A character as a line shows it.
pub open spec fn escaped_char(c: char) -> Seq<char> {
    if c == '\\' {
        seq!['\\', '\\']
    } else if c == '"' {
        seq!['\\', '"']
    } else if c == '\n' {
        seq!['\\', 'n']
    } else if c == '\r' {
        seq!['\\', 'r']
    } else if c == '\t' {
        seq!['\\', 't']
    } else {
        seq![c]
    }
}

/// A text as a line shows it.
pub open spec fn escaped(value: Seq<char>) -> Seq<char>
    decreases value.len(),
{
    if value.len() == 0 {
        Seq::empty()
    } else {
        escaped(value.drop_last()) + escaped_char(value[value.len() - 1])
    }
}

/// A text as a line shows it.
pub fn escape(value: &str) -> (r: String)
    ensures
        r@ == escaped(value@),
{
    let n: usize = value.unicode_len();
    let mut out = String::new();
    let mut i: usize = 0;
    assert(value@.take(0) =~= Seq::<char>::empty());
    while i < n
        invariant
            n == value@.len(),
            i <= n,
            out@ == escaped(value@.take(i as int)),
        decreases n - i,
    {
        let c = value.get_char(i);
        let ghost before = out@;
        if c == '\\' {
            out.push('\\');
            out.push('\\');
        } else if c == '"' {
            out.push('\\');
            out.push('"');
        } else if c == '\n' {
            out.push('\\');
            out.push('n');
        } else if c == '\r' {
            out.push('\\');
            out.push('r');
        } else if c == '\t' {
            out.push('\\');
            out.push('t');
        } else {
            out.push(c);
        }
        proof {
            assert(out@ =~= before + escaped_char(c));
            assert(value@.take(i + 1).drop_last() =~= value@.take(i as int));
            assert(value@.take(i + 1)[i as int] == c);
        }
        i += 1;
    }
    assert(value@.take(n as int) =~= value@);
    out
}

/// The line with a field, where it has a value.
pub open spec fn with_field(line: Seq<char>, name: Seq<char>, value: Option<String>) -> Seq<char> {
    match value {
        Some(text) => line + (" "@ + name + "=\""@ + escaped(text@) + "\""@),
        None => line,
    }
}

/// Adds a field to a line, where it has a value.
pub fn push_field(line: &mut String, name: &str, value: &Option<String>)
    ensures
        final(line)@ == with_field(old(line)@, name@, *value),
{
    if let Some(text) = value {
        let shown = escape(text.as_str());
        let field = cat5(" ", name, "=\"", shown.as_str(), "\"");
        line.append(field.as_str());
    }
}

/// The line of a phase; a heartbeat shows the seconds since it began.
pub open spec fn phase_line(command: Seq<char>, phase: Phase, elapsed: Option<nat>) -> Seq<char> {
    let head = "progress: command=\""@ + escaped(command) + "\" phase=\""@ + escaped(phase.name@)
        + "\""@;
    let with_item = with_field(head, "item"@, phase.item);
    let with_position = match phase.position {
        Some((index, total)) => with_item + (" position="@ + decimal(index as nat) + "/"@ + decimal(
            total as nat,
        )),
        None => with_item,
    };
    let with_lock = with_field(with_position, "lock"@, phase.lock);
    let with_failure = with_field(with_lock, "readiness_failure"@, phase.readiness_failure);
    let with_record = with_field(with_failure, "record"@, phase.record);
    let with_dir = with_field(with_record, "record_dir"@, phase.record_dir);
    let with_log = with_field(with_dir, "log"@, phase.log);
    match elapsed {
        Some(seconds) => with_log + (" elapsed="@ + decimal(seconds) + "s"@),
        None => with_log,
    }
}

// ---------------------------------------------------------------------------
// State

/// The phase that a command is in.
#[derive(Debug)]
pub struct ActivePhase {
    pub phase: Phase,
    pub started: u128,
    pub reported_at: Option<u128>,
    pub next_report: u128,
}

/// The progress of a command. Instants are nanoseconds of one monotonic clock.
#[derive(Debug)]
pub struct ProgressState {
    pub command: String,
    pub mode: Mode,
    pub delayed_deadline: Option<u128>,
    pub visible: bool,
    pub active: Option<ActivePhase>,
    pub observed_record: Option<String>,
    pub observed_record_dir: Option<String>,
}

/// The place among several items.
#[derive(Clone, Copy, Debug, PartialEq, Eq, Structural)]
pub struct OperationPosition {
    pub index: usize,
    pub total: usize,
}

/// What others may observe of a command.
#[derive(Debug)]
pub struct OperationProgress {
    pub phase: String,
    pub item: Option<String>,
    pub position: Option<OperationPosition>,
    pub lock: Option<String>,
    pub readiness_failure: Option<String>,
    pub record_ref: Option<String>,
    pub record_dir: Option<String>,
    pub log_ref: Option<String>,
}

impl ProgressState {
    /// When the quiet period of the command ends.
    pub open spec fn deadline(self, now: u128) -> u128 {
        match self.delayed_deadline {
            Some(deadline) => deadline,
            None => (now + FIRST_REPORT_AFTER) as u128,
        }
    }

    /// Whether a phase that begins is reported at once.
    pub open spec fn reports_at_once(self, now: u128) -> bool {
        self.mode is Immediate || self.visible || now >= self.deadline(now)
    }

    /// The state once a phase has begun.
    pub open spec fn begun(self, now: u128, phase: Phase) -> ProgressState {
        let first = self.observed_record is None && phase.record is Some;
        ProgressState {
            command: self.command,
            mode: self.mode,
            delayed_deadline: Some(self.deadline(now)),
            visible: self.visible || self.reports_at_once(now),
            active: Some(
                ActivePhase {
                    phase,
                    started: now,
                    reported_at: if self.reports_at_once(now) {
                        Some(now)
                    } else {
                        None
                    },
                    next_report: if self.reports_at_once(now) {
                        (now + FIRST_REPORT_AFTER) as u128
                    } else {
                        self.deadline(now)
                    },
                },
            ),
            observed_record: if first {
                phase.record
            } else {
                self.observed_record
            },
            observed_record_dir: if first {
                phase.record_dir
            } else {
                self.observed_record_dir
            },
        }
    }

    /// Whether a report is due.
    pub open spec fn is_due(self, now: u128) -> bool {
        self.active is Some && now >= self.active->0.next_report
    }

    /// How long until the next report can be due.
    pub open spec fn quiet_for(self, now: u128) -> u128 {
        match self.active {
            None => HEARTBEAT_EVERY,
            Some(active) => since(active.next_report, now),
        }
    }

    /// The state once a due report has been made.
    pub open spec fn reported(self, now: u128) -> ProgressState {
        let active = self.active->0;
        ProgressState {
            visible: true,
            active: Some(
                ActivePhase {
                    phase: active.phase,
                    started: active.started,
                    reported_at: Some(now),
                    next_report: if active.reported_at is Some {
                        (now + HEARTBEAT_EVERY) as u128
                    } else {
                        (now + FIRST_REPORT_AFTER) as u128
                    },
                },
            ),
            ..self
        }
    }

    /// The line of the active phase.
    pub open spec fn line(self, heartbeat: bool, now: u128) -> Seq<char> {
        match self.active {
            None => Seq::empty(),
            Some(active) => phase_line(
                self.command@,
                active.phase,
                if heartbeat {
                    Some((since(now, active.started) / 1_000_000_000) as nat)
                } else {
                    None
                },
            ),
        }
    }

    /// A command that has not begun a phase.
    pub fn new(command: &str, mode: Mode) -> (r: Self)
        ensures
            r.command@ == command@,
            r.mode == mode,
            r.delayed_deadline is None,
            !r.visible,
            r.active is None,
            r.observed_record is None,
            r.observed_record_dir is None,
    {
        ProgressState {
            command: command.to_owned(),
            mode,
            delayed_deadline: None,
            visible: false,
            active: None,
            observed_record: None,
            observed_record_dir: None,
        }
    }

    /// Begins a phase and gives its line where it is reported at once. The first
    /// record that a phase names stays the record of the command.
    pub fn begin(&mut self, now: u128, phase: Phase) -> (r: Option<String>)
        requires
            now + FIRST_REPORT_AFTER <= u128::MAX,
        ensures
            *final(self) == old(self).begun(now, phase),
            match r {
                Some(text) => old(self).reports_at_once(now) && text@ == final(self).line(
                    false,
                    now,
                ),
                None => !old(self).reports_at_once(now),
            },
    {
        if self.observed_record.is_none() {
            if let Some(record) = &phase.record {
                self.observed_record = Some(record.clone());
                self.observed_record_dir = copy_text(&phase.record_dir);
            }
        }
        let deadline: u128 = match self.delayed_deadline {
            Some(deadline) => deadline,
            None => now + FIRST_REPORT_AFTER,
        };
        self.delayed_deadline = Some(deadline);
        let immediate = self.mode == Mode::Immediate || self.visible || now >= deadline;
        self.visible = self.visible || immediate;
        let reported_at = if immediate {
            Some(now)
        } else {
            None
        };
        let next_report: u128 = if immediate {
            now + FIRST_REPORT_AFTER
        } else {
            deadline
        };
        self.active = Some(ActivePhase { phase, started: now, reported_at, next_report });
        if immediate {
            Some(self.render(false, now))
        } else {
            None
        }
    }

    /// Makes the report that is due, if one is: the first of a quiet phase, or a
    /// heartbeat.
    pub fn due(&mut self, now: u128) -> (r: Option<String>)
        requires
            now + HEARTBEAT_EVERY <= u128::MAX,
        ensures
            match r {
                Some(text) => old(self).is_due(now) && *final(self) == old(self).reported(now)
                    && text@ == old(self).line(old(self).active->0.reported_at is Some, now),
                None => !old(self).is_due(now) && *final(self) == *old(self),
            },
    {
        let (heartbeat, next_report): (bool, u128) = match &self.active {
            None => return None,
            Some(active) => (active.reported_at.is_some(), active.next_report),
        };
        if now < next_report {
            return None;
        }
        let text = self.render(heartbeat, now);
        let mut taken: Option<ActivePhase> = None;
        std::mem::swap(&mut taken, &mut self.active);
        if let Some(active) = taken {
            self.active = Some(
                ActivePhase {
                    phase: active.phase,
                    started: active.started,
                    reported_at: Some(now),
                    next_report: if heartbeat {
                        now + HEARTBEAT_EVERY
                    } else {
                        now + FIRST_REPORT_AFTER
                    },
                },
            );
        }
        self.visible = true;
        Some(text)
    }

    /// Notes why the active phase is not ready.
    pub fn set_readiness_failure(&mut self, failure: &str)
        ensures
            match old(self).active {
                None => *final(self) == *old(self),
                Some(active) => final(self).active matches Some(now) && is_text(
                    now.phase.readiness_failure,
                    failure@,
                ) && *final(self) == (ProgressState {
                    active: Some(
                        ActivePhase {
                            phase: Phase {
                                readiness_failure: now.phase.readiness_failure,
                                ..active.phase
                            },
                            ..active
                        },
                    ),
                    ..*old(self)
                }),
            },
    {
        let mut taken: Option<ActivePhase> = None;
        std::mem::swap(&mut taken, &mut self.active);
        if let Some(active) = taken {
            let ActivePhase { phase, started, reported_at, next_report } = active;
            let phase = Phase { readiness_failure: Some(failure.to_owned()), ..phase };
            self.active = Some(ActivePhase { phase, started, reported_at, next_report });
        }
    }

    /// What others may observe: the active phase and the record of the command.
    pub fn observation(&self) -> (r: Option<OperationProgress>)
        ensures
            match self.active {
                None => r is None,
                Some(active) => r matches Some(found) && found == (OperationProgress {
                    phase: active.phase.name,
                    item: active.phase.item,
                    position: match active.phase.position {
                        Some((index, total)) => Some(OperationPosition { index, total }),
                        None => None,
                    },
                    lock: active.phase.lock,
                    readiness_failure: active.phase.readiness_failure,
                    record_ref: self.observed_record,
                    record_dir: self.observed_record_dir,
                    log_ref: active.phase.log,
                }),
            },
    {
        match &self.active {
            None => None,
            Some(active) => {
                let phase = &active.phase;
                let position = match phase.position {
                    Some((index, total)) => Some(OperationPosition { index, total }),
                    None => None,
                };
                Some(
                    OperationProgress {
                        phase: phase.name.clone(),
                        item: copy_text(&phase.item),
                        position,
                        lock: copy_text(&phase.lock),
                        readiness_failure: copy_text(&phase.readiness_failure),
                        record_ref: copy_text(&self.observed_record),
                        record_dir: copy_text(&self.observed_record_dir),
                        log_ref: copy_text(&phase.log),
                    },
                )
            },
        }
    }

    /// How long until the next report can be due.
    pub fn wait_duration(&self, now: u128) -> (r: u128)
        ensures
            r == self.quiet_for(now),
    {
        match &self.active {
            None => HEARTBEAT_EVERY,
            Some(active) => saturating_since(active.next_report, now),
        }
    }

    /// The line of the active phase.
    pub fn render(&self, heartbeat: bool, now: u128) -> (r: String)
        ensures
            r@ == self.line(heartbeat, now),
    {
        let active = match &self.active {
            None => return String::new(),
            Some(active) => active,
        };
        let phase = &active.phase;
        let mut line = cat5(
            "progress: command=\"",
            escape(self.command.as_str()).as_str(),
            "\" phase=\"",
            escape(phase.name.as_str()).as_str(),
            "\"",
        );
        push_field(&mut line, "item", &phase.item);
        if let Some((index, total)) = phase.position {
            let field = cat4(
                " position=",
                to_decimal(index as u64).as_str(),
                "/",
                to_decimal(total as u64).as_str(),
            );
            line.append(field.as_str());
        }
        push_field(&mut line, "lock", &phase.lock);
        push_field(&mut line, "readiness_failure", &phase.readiness_failure);
        push_field(&mut line, "record", &phase.record);
        push_field(&mut line, "record_dir", &phase.record_dir);
        push_field(&mut line, "log", &phase.log);
        if heartbeat {
            let seconds: u128 = saturating_since(now, active.started) / 1_000_000_000;
            let field = crate::text::cat3(" elapsed=", to_decimal_wide(seconds).as_str(), "s");
            line.append(field.as_str());
        }
        line
    }

    /// One turn of the heartbeat: the line to write, if one is due.
    pub fn heartbeat(&mut self, stopped: bool, now: u128) -> (r: HeartbeatTurn)
        requires
            now + HEARTBEAT_EVERY <= u128::MAX,
        ensures
            if stopped {
                r is Stop && *final(self) == *old(self)
            } else if old(self).is_due(now) {
                r matches HeartbeatTurn::Wait { line: Some(text) } && *final(self)
                    == old(self).reported(now) && text@ == old(self).line(
                    old(self).active->0.reported_at is Some,
                    now,
                )
            } else {
                r matches HeartbeatTurn::Wait { line: None } && *final(self) == *old(self)
            },
    {
        if stopped {
            HeartbeatTurn::Stop
        } else {
            HeartbeatTurn::Wait { line: self.due(now) }
        }
    }
}

/// What a turn of the heartbeat does: end, or write what is due and wait.
#[derive(Debug)]
pub enum HeartbeatTurn {
    Stop,
    Wait { line: Option<String> },
}

// ---------------------------------------------------------------------------
// Laws

/// The text that was escaped; none where a mark is not one of an escape.
pub open spec fn unescaped(s: Seq<char>) -> Option<Seq<char>>
    decreases s.len(),
{
    if s.len() == 0 {
        Some(Seq::empty())
    } else if s[0] != '\\' {
        match unescaped(s.skip(1)) {
            Some(rest) => Some(seq![s[0]] + rest),
            None => None,
        }
    } else if s.len() == 1 {
        None
    } else {
        let c = if s[1] == 'n' {
            Some('\n')
        } else if s[1] == 'r' {
            Some('\r')
        } else if s[1] == 't' {
            Some('\t')
        } else if s[1] == '\\' || s[1] == '"' {
            Some(s[1])
        } else {
            None
        };
        match (c, unescaped(s.skip(2))) {
            (Some(c), Some(rest)) => Some(seq![c] + rest),
            _ => None,
        }
    }
}

proof fn lemma_unescaped(value: Seq<char>, tail: Seq<char>)
    ensures
        unescaped(escaped(value) + tail) == match unescaped(tail) {
            Some(rest) => Some(value + rest),
            None => None,
        },
    decreases value.len(),
{
    if value.len() == 0 {
        assert(escaped(value) + tail =~= tail);
        if let Some(rest) = unescaped(tail) {
            assert(value + rest =~= rest);
        }
    } else {
        let front = value.drop_last();
        let c = value[value.len() - 1];
        let shown = escaped_char(c) + tail;
        assert(escaped(value) + tail =~= escaped(front) + shown);
        lemma_unescaped(front, shown);
        if escaped_char(c).len() == 1 {
            assert(shown[0] == c);
            assert(shown.skip(1) =~= tail);
        } else {
            assert(shown[0] == '\\');
            assert(shown[1] == escaped_char(c)[1]);
            assert(shown.skip(2) =~= tail);
        }
        assert(unescaped(shown) == match unescaped(tail) {
            Some(rest) => Some(seq![c] + rest),
            None => None,
        });
        if let Some(rest) = unescaped(tail) {
            assert(front + (seq![c] + rest) =~= value + rest);
        }
    }
}

/// An escaped text stays on its line and is read back as it was.
pub proof fn law_escaped_text_is_one_field(value: Seq<char>)
    ensures
        unescaped(escaped(value)) == Some(value),
        !escaped(value).contains('\n'),
        !escaped(value).contains('\r'),
        !escaped(value).contains('\t'),
    decreases value.len(),
{
    lemma_unescaped(value, Seq::empty());
    assert(escaped(value) + Seq::<char>::empty() =~= escaped(value));
    assert(value + Seq::<char>::empty() =~= value);
    if value.len() > 0 {
        law_escaped_text_is_one_field(value.drop_last());
        let front = escaped(value.drop_last());
        let last = escaped_char(value[value.len() - 1]);
        assert forall|c: char| c == '\n' || c == '\r' || c == '\t' implies !(#[trigger] escaped(
            value,
        ).contains(c)) by {
            if escaped(value).contains(c) {
                let i = choose|i: int| 0 <= i < escaped(value).len() && escaped(value)[i] == c;
                if i < front.len() {
                    assert(front[i] == c);
                    assert(front.contains(c));
                } else {
                    assert(last[i - front.len()] == c);
                }
            }
        }
    }
}

/// After a report the next is not due for the quiet period of a phase, and after
/// a heartbeat not for the time between heartbeats.
pub proof fn law_reports_are_spaced(state: ProgressState, now: u128, later: u128)
    requires
        state.is_due(now),
        now + HEARTBEAT_EVERY <= u128::MAX,
    ensures
        state.active->0.reported_at is Some ==> (state.reported(now).is_due(later) <==> later >= now
            + HEARTBEAT_EVERY),
        state.active->0.reported_at is None ==> (state.reported(now).is_due(later) <==> later >= now
            + FIRST_REPORT_AFTER),
{
}

/// A quiet command stays quiet until its own deadline, however many phases it
/// goes through before.
pub proof fn law_phases_do_not_restart_the_quiet_period(
    state: ProgressState,
    first: u128,
    phase: Phase,
    second: u128,
    next: Phase,
    now: u128,
)
    requires
        state.mode is Delayed,
        !state.visible,
        state.delayed_deadline is None,
        first + FIRST_REPORT_AFTER <= u128::MAX,
        first <= second < first + FIRST_REPORT_AFTER,
    ensures
        !state.reports_at_once(first),
        !state.begun(first, phase).reports_at_once(second),
        state.begun(first, phase).begun(second, next).is_due(now) <==> now >= first
            + FIRST_REPORT_AFTER,
{
}

/// The wait for the next report is exact: once a phase has begun it is over exactly
/// when a report is due, a report is due at its end and none before; before any phase
/// it is the time between heartbeats, and no report is ever due.
pub proof fn law_the_wait_ends_at_the_next_report(state: ProgressState, now: u128, at: u128)
    ensures
        state.active is Some ==> (state.quiet_for(now) == 0 <==> state.is_due(now)),
        state.active is Some ==> now + state.quiet_for(now) <= u128::MAX && state.is_due(
            (now + state.quiet_for(now)) as u128,
        ),
        state.active is Some && now <= at < now + state.quiet_for(now) ==> !state.is_due(at),
        state.active is None ==> state.quiet_for(now) == HEARTBEAT_EVERY && !state.is_due(at),
{
}

/// The record that is observed is the first that a phase named: no later phase
/// replaces it.
pub proof fn law_first_record_is_kept(state: ProgressState, now: u128, phase: Phase)
    ensures
        state.observed_record is Some ==> state.begun(now, phase).observed_record
            == state.observed_record && state.begun(now, phase).observed_record_dir
            == state.observed_record_dir,
        state.observed_record is None ==> state.begun(now, phase).observed_record == phase.record,
{
}

/// A heartbeat is the line of its phase with the whole seconds since the phase began.
pub proof fn law_heartbeat_tells_the_time_since_the_phase_began(state: ProgressState, now: u128)
    requires
        state.active is Some,
        now >= state.active->0.started,
    ensures
        state.line(true, now) == state.line(false, now) + (" elapsed="@ + decimal(
            ((now - state.active->0.started) / 1_000_000_000) as nat,
        ) + "s"@),
{
}

/// A phase that begins is the active one from then on, whatever came before it; a report
/// of it leaves it active.
pub proof fn law_begun_phase_is_active(state: ProgressState, now: u128, phase: Phase, later: u128)
    ensures
        state.begun(now, phase).active matches Some(active) && active.phase == phase
            && active.started == now,
        state.begun(now, phase).reported(later).active matches Some(active) && active.phase == phase
            && active.started == now && active.reported_at == Some(later),
        state.mode is Immediate ==> (state.begun(now, phase).active matches Some(active)
            && active.reported_at == Some(now)),
        state.begun(now, phase).command == state.command,
{
}

} // verus!
