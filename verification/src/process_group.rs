//! Local process groups: their identity, their state and how they are stopped.

use crate::text::{
    cat2, cat3, cat4, decimal, decode_lossy, find_last_char, last_position, lines, lossy_text,
    number_error, parse_u64, parsed_unsigned, same, text_lines, text_of, texts, to_decimal, trim, trimmed,
    words, words_of,
};
use crate::time_bound::{min_duration, shorter, OperationBound, Remaining};
use vstd::prelude::*;
use vstd::string::*;

verus! {

/// A signal that ends processes.
#[derive(Clone, Copy, Debug, PartialEq, Eq, Structural)]
pub enum TerminationSignal {
    Term,
    Kill,
}

/// What came of sending a signal.
#[derive(Debug)]
pub struct SignalEvidence {
    pub signal: TerminationSignal,
    pub process_group: u32,
    pub exit_code: Option<i32>,
    pub stderr: Option<String>,
    pub error: Option<String>,
}

/// What came of sending a signal, as values.
#[verifier::ext_equal]
pub struct SignalView {
    pub signal: TerminationSignal,
    pub process_group: u32,
    pub exit_code: Option<i32>,
    pub stderr: Option<Seq<char>>,
    pub error: Option<Seq<char>>,
}

impl View for SignalEvidence {
    type V = SignalView;

    open spec fn view(&self) -> SignalView {
        SignalView {
            signal: self.signal,
            process_group: self.process_group,
            exit_code: self.exit_code,
            stderr: text_of(self.stderr),
            error: text_of(self.error),
        }
    }
}

impl SignalEvidence {
    /// The signal was delivered.
    pub open spec fn delivered(self) -> bool {
        self.error is None && self.exit_code == Some(0i32)
    }

    /// Whether the signal was delivered.
    pub fn succeeded(&self) -> (r: bool)
        ensures
            r == self.delivered(),
    {
        self.error.is_none() && match self.exit_code {
            Some(code) => code == 0,
            None => false,
        }
    }
}

/// What a command left when it ended.
#[derive(Debug)]
pub struct CommandOutput {
    pub exit_code: Option<i32>,
    pub success: bool,
    /// The exit status in words.
    pub status: String,
    pub stdout: Vec<u8>,
    pub stderr: Vec<u8>,
}

/// The command was run and succeeded.
pub open spec fn passed(answer: Result<CommandOutput, String>) -> bool {
    answer matches Ok(output) && output.success
}

/// Whether the next of several commands is run after the answer of one: none is run
/// after one that could not be run or failed.
pub fn goes_on(answer: &Result<CommandOutput, String>) -> (r: bool)
    ensures
        r == passed(*answer),
{
    match answer {
        Ok(output) => output.success,
        Err(_) => false,
    }
}

/// A process group by its leader: the leader's start time tells it from a later
/// process with the same number.
#[derive(Clone, Copy, Debug, PartialEq, Eq, Structural)]
pub struct LocalProcessGroup {
    pub leader_pid: u32,
    pub process_group: u32,
    pub leader_start_time_ticks: u64,
}

/// What is known of a process group.
#[derive(Clone, Copy, Debug, PartialEq, Eq, Structural)]
pub enum VerifiedStatus {
    Alive,
    Exited,
    Reused,
    LeaderMissingWithMembers,
}

/// Whether a text result is the expected one.
pub open spec fn result_is<T>(r: Result<T, String>, expected: Result<T, Seq<char>>) -> bool {
    match expected {
        Ok(value) => r == Ok::<T, String>(value),
        Err(text) => r matches Err(found) && found@ == text,
    }
}

/// What a text result holds.
pub open spec fn result_of<T>(r: Result<T, String>) -> Result<T, Seq<char>> {
    match r {
        Ok(value) => Ok(value),
        Err(text) => Err(text@),
    }
}

// ---------------------------------------------------------------------------
// Start times

/// The start time in the status line of a process: the twentieth field after the
/// command name, which ends at the last closing bracket.
pub open spec fn start_time(pid: u32, stat: Seq<char>) -> Result<u64, Seq<char>> {
    let end = last_position(stat, ')');
    let who = decimal(pid as nat);
    if end < 0 {
        Err("invalid process stat for pid "@ + who)
    } else {
        let fields = words_of(stat.skip(end + 1));
        if fields.len() <= 19 {
            Err("process stat for pid "@ + who + " has no start time"@)
        } else {
            match parsed_unsigned(fields[19], u64::MAX as nat) {
                Some(ticks) => Ok(ticks as u64),
                None => Err(
                    "invalid process start time for pid "@ + who + ": "@ + number_error(fields[19]),
                ),
            }
        }
    }
}

/// Reads the start time of a process from its status line.
pub fn parse_start_time(pid: u32, stat: &str) -> (r: Result<u64, String>)
    ensures
        result_is(r, start_time(pid, stat@)),
{
    let who = to_decimal(pid as u64);
    let end: usize = match find_last_char(stat, ')') {
        Some(end) => end,
        None => return Err(cat2("invalid process stat for pid ", who.as_str())),
    };
    let n: usize = stat.unicode_len();
    let rest = stat.substring_char(end + 1, n);
    assert(rest@ =~= stat@.skip(end + 1));
    let fields = words(rest);
    assert(texts(fields@).len() == fields@.len());
    if fields.len() <= 19 {
        return Err(cat3("process stat for pid ", who.as_str(), " has no start time"));
    }
    assert(texts(fields@)[19] == fields@[19]@);
    match parse_u64(fields[19].as_str()) {
        Ok(ticks) => Ok(ticks),
        Err(error) => Err(
            cat4("invalid process start time for pid ", who.as_str(), ": ", error.as_str()),
        ),
    }
}

/// The start time of a process. `stat` is its status line, nothing where there is
/// no such process, or why it cannot be read.
pub fn process_start_time(pid: u32, stat: &Result<Option<String>, String>) -> (r: Result<
    Option<u64>,
    String,
>)
    ensures
        match *stat {
            Ok(None) => r == Ok::<Option<u64>, String>(None),
            Ok(Some(text)) => match start_time(pid, text@) {
                Ok(ticks) => r == Ok::<Option<u64>, String>(Some(ticks)),
                Err(message) => r matches Err(found) && found@ == message,
            },
            Err(error) => r matches Err(found) && found@ == "failed to read /proc/"@ + decimal(
                pid as nat,
            ) + "/stat: "@ + error@,
        },
{
    match stat {
        Ok(None) => Ok(None),
        Ok(Some(text)) => match parse_start_time(pid, text.as_str()) {
            Ok(ticks) => Ok(Some(ticks)),
            Err(message) => Err(message),
        },
        Err(error) => Err(
            cat4(
                "failed to read /proc/",
                to_decimal(pid as u64).as_str(),
                "/stat: ",
                error.as_str(),
            ),
        ),
    }
}

// ---------------------------------------------------------------------------
// Members

/// Whether a line of the process table shows a live member of the group.
pub open spec fn shows_member(line: Seq<char>, group: Seq<char>) -> bool {
    let fields = words_of(line);
    fields.len() >= 3 && fields[1] == group && fields[2][0] != 'Z'
}

/// Whether the process table shows a live member of the group.
pub open spec fn has_members(table: Seq<char>, group: u32) -> bool {
    exists|i: int|
        0 <= i < text_lines(table).len() && shows_member(
            #[trigger] text_lines(table)[i],
            decimal(group as nat),
        )
}

/// Every word has a character.
proof fn lemma_words_nonempty(s: Seq<char>)
    ensures
        forall|i: int|
            0 <= i < crate::text::word_scan(s).0.len() ==> (
            #[trigger] crate::text::word_scan(s).0[i]).len() > 0,
        forall|i: int| 0 <= i < words_of(s).len() ==> (#[trigger] words_of(s)[i]).len() > 0,
    decreases s.len(),
{
    let (done, current) = crate::text::word_scan(s);
    if s.len() > 0 {
        lemma_words_nonempty(s.drop_last());
        let before = crate::text::word_scan(s.drop_last()).0;
        assert forall|i: int| 0 <= i < done.len() implies (#[trigger] done[i]).len() > 0 by {
            if i < before.len() {
                assert(done[i] == before[i]);
            }
        }
    }
    assert forall|i: int| 0 <= i < words_of(s).len() implies (#[trigger] words_of(s)[i]).len()
        > 0 by {
        if i < done.len() {
            assert(words_of(s)[i] == done[i]);
        }
    }
}

/// Whether a process table has a live member of the group.
pub fn live_members(table: &str, process_group: u32) -> (r: bool)
    ensures
        r == has_members(table@, process_group),
{
    let group = to_decimal(process_group as u64);
    let rows = lines(table);
    let ghost all = text_lines(table@);
    let mut i: usize = 0;
    while i < rows.len()
        invariant
            i <= rows@.len(),
            texts(rows@) == all,
            all == text_lines(table@),
            group@ == decimal(process_group as nat),
            forall|j: int| 0 <= j < i ==> !shows_member(#[trigger] all[j], group@),
        decreases rows@.len() - i,
    {
        let fields = words(rows[i].as_str());
        proof {
            assert(all[i as int] == rows@[i as int]@);
            lemma_words_nonempty(all[i as int]);
            assert(texts(fields@).len() == fields@.len());
            assert(forall|j: int| 0 <= j < fields@.len() ==> texts(fields@)[j] == fields@[j]@);
        }
        if fields.len() >= 3 {
            assert(texts(fields@)[1] == fields@[1]@ && texts(fields@)[2] == fields@[2]@);
            assert(words_of(all[i as int])[2].len() > 0);
            if same(fields[1].as_str(), group.as_str()) && fields[2].as_str().get_char(0) != 'Z' {
                assert(shows_member(all[i as int], group@));
                return true;
            }
        }
        assert(!shows_member(all[i as int], group@));
        i += 1;
    }
    false
}

/// What a finished query of the process table tells of a group.
pub open spec fn members_told(output: CommandOutput, group: u32) -> Result<bool, Seq<char>> {
    if output.success {
        Ok(has_members(lossy_text(output.stdout@), group))
    } else {
        Err(
            "process-group query exited with "@ + output.status@ + ": "@ + trimmed(
                lossy_text(output.stderr@),
            ),
        )
    }
}

/// How a bounded command ended.
#[derive(Debug)]
pub enum BoundedWait {
    Exited { output: CommandOutput },
    /// The time was up; the command was killed, or why it was not.
    Expired { kill: Result<(), String> },
    /// The wait was interrupted; the command was killed, or why it was not.
    Interrupted { kill: Result<(), String> },
    LaunchFailed { error: String },
    StdinFailed { error: String },
    WaitFailed { error: String },
    WaitCleanupFailed { source: String, cleanup_error: Option<String>, cleanup_verified: bool },
}

/// Why a bounded cleanup command has no output, if it has none.
pub open spec fn cleanup_fault(wait: BoundedWait) -> Option<Seq<char>> {
    match wait {
        BoundedWait::Exited { .. } => None,
        BoundedWait::Expired { .. } => Some("process-group cleanup command deadline expired"@),
        BoundedWait::Interrupted { .. } => Some("process-group cleanup command was interrupted"@),
        BoundedWait::LaunchFailed { error } => Some(
            "process-group cleanup command failed to launch: "@ + error@,
        ),
        BoundedWait::StdinFailed { error } => Some(
            "process-group cleanup command failed: "@ + error@,
        ),
        BoundedWait::WaitFailed { error } => Some("process-group cleanup command failed: "@ + error@),
        BoundedWait::WaitCleanupFailed { source, cleanup_error, cleanup_verified } => Some(
            "process-group cleanup command wait failed: "@ + source@ + "; cleanup verification: "@
                + match cleanup_error {
                Some(error) => error@,
                None => if cleanup_verified {
                    "verified"@
                } else {
                    "unverified"@
                },
            },
        ),
    }
}

/// The output of a bounded cleanup command, or why it has none.
pub fn cleanup_output(wait: &BoundedWait) -> (r: Result<&CommandOutput, String>)
    ensures
        match cleanup_fault(*wait) {
            None => r matches Ok(found) && *wait == (BoundedWait::Exited { output: *found }),
            Some(text) => r matches Err(found) && found@ == text,
        },
{
    match wait {
        BoundedWait::Exited { output } => Ok(output),
        BoundedWait::Expired { .. } => Err("process-group cleanup command deadline expired".to_owned()),
        BoundedWait::Interrupted { .. } => Err("process-group cleanup command was interrupted".to_owned()),
        BoundedWait::LaunchFailed { error } => Err(
            cat2("process-group cleanup command failed to launch: ", error.as_str()),
        ),
        BoundedWait::StdinFailed { error } => Err(
            cat2("process-group cleanup command failed: ", error.as_str()),
        ),
        BoundedWait::WaitFailed { error } => Err(
            cat2("process-group cleanup command failed: ", error.as_str()),
        ),
        BoundedWait::WaitCleanupFailed { source, cleanup_error, cleanup_verified } => {
            let verification = match cleanup_error {
                Some(error) => error.as_str(),
                None => if *cleanup_verified {
                    "verified"
                } else {
                    "unverified"
                },
            };
            Err(
                cat4(
                    "process-group cleanup command wait failed: ",
                    source.as_str(),
                    "; cleanup verification: ",
                    verification,
                ),
            )
        },
    }
}

/// What a query of the process table tells of a group.
pub open spec fn queried(wait: BoundedWait, group: u32) -> Result<bool, Seq<char>> {
    match wait {
        BoundedWait::Exited { output } => members_told(output, group),
        _ => Err(cleanup_fault(wait)->0),
    }
}

// ---------------------------------------------------------------------------
// Groups

impl LocalProcessGroup {
    /// A group whose leader was not looked at.
    pub fn unverified(process_group: u32) -> (r: Self)
        ensures
            r == (LocalProcessGroup {
                leader_pid: process_group,
                process_group,
                leader_start_time_ticks: 0,
            }),
    {
        LocalProcessGroup {
            leader_pid: process_group,
            process_group,
            leader_start_time_ticks: 0,
        }
    }

    /// A group by its leader.
    pub fn new(leader_pid: u32, process_group: u32, leader_start_time_ticks: u64) -> (r: Result<
        Self,
        String,
    >)
        ensures
            result_is(
                r,
                if leader_pid == 0 || process_group == 0 {
                    Err("local process-group identity requires non-zero identifiers"@)
                } else if leader_pid != process_group {
                    Err("local process-group leader must equal its process group"@)
                } else {
                    Ok(
                        LocalProcessGroup { leader_pid, process_group, leader_start_time_ticks },
                    )
                },
            ),
    {
        if leader_pid == 0 || process_group == 0 {
            return Err("local process-group identity requires non-zero identifiers".to_owned());
        }
        if leader_pid != process_group {
            return Err("local process-group leader must equal its process group".to_owned());
        }
        Ok(LocalProcessGroup { leader_pid, process_group, leader_start_time_ticks })
    }

    /// The group of a child that was just started. `start` is the reading of its
    /// start time.
    pub fn capture_child(leader_pid: u32, start: &Result<Option<u64>, String>) -> (r: Result<
        Self,
        String,
    >)
        ensures
            match *start {
                Err(error) => r matches Err(found) && found@ == error@,
                Ok(None) => r matches Err(found) && found@ == "process "@ + decimal(
                    leader_pid as nat,
                ) + " exited before its identity could be recorded"@,
                Ok(Some(ticks)) => if leader_pid == 0 {
                    r matches Err(found) && found@
                        == "local process-group identity requires non-zero identifiers"@
                } else {
                    r == Ok::<LocalProcessGroup, String>(
                        LocalProcessGroup {
                            leader_pid,
                            process_group: leader_pid,
                            leader_start_time_ticks: ticks,
                        },
                    )
                },
            },
    {
        match start {
            Err(error) => Err(error.clone()),
            Ok(None) => Err(
                cat3(
                    "process ",
                    to_decimal(leader_pid as u64).as_str(),
                    " exited before its identity could be recorded",
                ),
            ),
            Ok(Some(ticks)) => Self::new(leader_pid, leader_pid, *ticks),
        }
    }

    /// Whether the leader is still the process that was recorded.
    pub fn identity_matches(&self, start: &Result<Option<u64>, String>) -> (r: bool)
        ensures
            r == (*start == Ok::<Option<u64>, String>(Some(self.leader_start_time_ticks))),
    {
        match start {
            Ok(Some(current)) => *current == self.leader_start_time_ticks,
            _ => false,
        }
    }

    /// The state that the readings show: of the leader's start time, and of the
    /// live members where the leader was not replaced.
    pub open spec fn shown(
        self,
        start: Result<Option<u64>, Seq<char>>,
        members: Result<bool, Seq<char>>,
    ) -> Result<VerifiedStatus, Seq<char>> {
        match start {
            Err(text) => Err(text),
            Ok(Some(actual)) if actual != self.leader_start_time_ticks => Ok(
                VerifiedStatus::Reused,
            ),
            Ok(Some(_)) => match members {
                Err(text) => Err(text),
                Ok(alive) => Ok(
                    if alive {
                        VerifiedStatus::Alive
                    } else {
                        VerifiedStatus::Exited
                    },
                ),
            },
            Ok(None) => match members {
                Err(text) => Err(text),
                Ok(alive) => Ok(
                    if alive {
                        VerifiedStatus::LeaderMissingWithMembers
                    } else {
                        VerifiedStatus::Exited
                    },
                ),
            },
        }
    }

    /// The state of the group. A group whose leader's number was taken by another
    /// process is never taken for alive.
    pub fn verified_status(
        &self,
        start: &Result<Option<u64>, String>,
        members: &Result<bool, String>,
    ) -> (r: Result<VerifiedStatus, String>)
        ensures
            result_is(r, self.shown(result_of(*start), result_of(*members))),
    {
        let leader = match start {
            Err(error) => return Err(error.clone()),
            Ok(leader) => *leader,
        };
        match leader {
            Some(actual) => {
                if actual != self.leader_start_time_ticks {
                    return Ok(VerifiedStatus::Reused);
                }
                match members {
                    Err(error) => Err(error.clone()),
                    Ok(alive) => if *alive {
                        Ok(VerifiedStatus::Alive)
                    } else {
                        Ok(VerifiedStatus::Exited)
                    },
                }
            },
            None => match members {
                Err(error) => Err(error.clone()),
                Ok(alive) => if *alive {
                    Ok(VerifiedStatus::LeaderMissingWithMembers)
                } else {
                    Ok(VerifiedStatus::Exited)
                },
            },
        }
    }

    /// The words of the command that sends a signal to the group.
    pub fn signal_argv(&self, signal: TerminationSignal) -> (r: Vec<String>)
        ensures
            texts(r@) == seq![
                "kill"@,
                match signal {
                    TerminationSignal::Term => "-TERM"@,
                    TerminationSignal::Kill => "-KILL"@,
                },
                "--"@,
                "-"@ + decimal(self.process_group as nat),
            ],
    {
        let mut argv: Vec<String> = Vec::new();
        argv.push("kill".to_owned());
        match signal {
            TerminationSignal::Term => argv.push("-TERM".to_owned()),
            TerminationSignal::Kill => argv.push("-KILL".to_owned()),
        }
        argv.push("--".to_owned());
        argv.push(cat2("-", to_decimal(self.process_group as u64).as_str()));
        assert(texts(argv@) =~= seq![
            "kill"@,
            match signal {
                TerminationSignal::Term => "-TERM"@,
                TerminationSignal::Kill => "-KILL"@,
            },
            "--"@,
            "-"@ + decimal(self.process_group as nat),
        ]);
        argv
    }

    /// The evidence of a signal that was sent.
    pub fn send_signal(&self, signal: TerminationSignal, wait: &BoundedWait) -> (r: SignalEvidence)
        ensures
            r.signal == signal,
            r.process_group == self.process_group,
            match *wait {
                BoundedWait::Exited { output } => r.exit_code == output.exit_code && r.stderr is Some
                    && r.stderr->0@ == trimmed(lossy_text(output.stderr@)) && r.error is None,
                _ => r.exit_code is None && r.stderr is None && r.error is Some && r.error->0@
                    == cleanup_fault(*wait)->0,
            },
    {
        match cleanup_output(wait) {
            Ok(output) => SignalEvidence {
                signal,
                process_group: self.process_group,
                exit_code: output.exit_code,
                stderr: Some(trim(decode_lossy(output.stderr.as_slice()).as_str()).to_owned()),
                error: None,
            },
            Err(error) => SignalEvidence {
                signal,
                process_group: self.process_group,
                exit_code: None,
                stderr: None,
                error: Some(error),
            },
        }
    }

    /// Whether the group has live members, from a query of the process table.
    pub fn has_live_members(&self, wait: &BoundedWait) -> (r: Result<bool, String>)
        ensures
            result_is(r, queried(*wait, self.process_group)),
    {
        let output = match cleanup_output(wait) {
            Ok(output) => output,
            Err(error) => return Err(error),
        };
        if !output.success {
            return Err(
                cat4(
                    "process-group query exited with ",
                    output.status.as_str(),
                    ": ",
                    trim(decode_lossy(output.stderr.as_slice()).as_str()),
                ),
            );
        }
        Ok(live_members(decode_lossy(output.stdout.as_slice()).as_str(), self.process_group))
    }
}

// ---------------------------------------------------------------------------
// Waiting

/// What a turn of waiting for a group to stop does.
#[derive(Debug)]
pub enum StopTurn {
    /// The wait is over: whether the group stopped.
    Over(bool),
    /// The wait cannot go on.
    Failed(String),
    /// Look again after the time.
    Sleep(u128),
}

/// Whether a turn of waiting for a group to stop ends before its members are looked
/// at: its leader cannot be reaped, or the time is up.
pub open spec fn ends_early(
    turn: Option<StopTurn>,
    reaped: Result<(), Seq<char>>,
    left_before: Remaining,
) -> bool {
    match reaped {
        Err(text) => turn matches Some(StopTurn::Failed(found)) && found@
            == "failed to reap process-group leader: "@ + text,
        Ok(()) => if left_before is Expired {
            turn == Some(StopTurn::Over(false))
        } else {
            turn is None
        },
    }
}

/// How a turn of waiting for a group to stop ends before its members are looked at,
/// where it does. `reaped` says what came of reaping the leader where it is a child
/// of this process.
pub fn before_look(reaped: &Result<(), String>, bound: &OperationBound, now: u128) -> (r: Option<
    StopTurn,
>)
    ensures
        ends_early(r, result_of(*reaped), bound.kind.left_at(now)),
{
    match reaped {
        Err(error) => Some(
            StopTurn::Failed(cat2("failed to reap process-group leader: ", error.as_str())),
        ),
        Ok(()) => if bound.is_expired(now) {
            Some(StopTurn::Over(false))
        } else {
            None
        },
    }
}

/// Whether a turn is the expected one.
pub open spec fn turn_is(
    turn: StopTurn,
    members: Result<bool, Seq<char>>,
    left_after: Remaining,
    poll: u128,
) -> bool {
    match members {
        Ok(false) => turn == StopTurn::Over(true),
        Err(text) => if left_after is Expired {
            turn == StopTurn::Over(false)
        } else {
            turn matches StopTurn::Failed(found) && found@ == text
        },
        Ok(true) => match left_after {
            Remaining::Finite(left) => turn == StopTurn::Sleep(shorter(poll, left)),
            Remaining::Expired => turn == StopTurn::Over(false),
            Remaining::Unbounded => turn == StopTurn::Sleep(poll),
        },
    }
}

/// One turn of waiting for a group to stop that was not over before the look, with
/// a reading of its live members taken within the bound and the time at which it
/// came back.
pub fn wait_until_stopped(
    members: &Result<bool, String>,
    bound: &OperationBound,
    now: u128,
    poll_interval: u128,
) -> (r: StopTurn)
    ensures
        turn_is(r, result_of(*members), bound.kind.left_at(now), poll_interval),
{
    match members {
        Ok(alive) => {
            if !*alive {
                return StopTurn::Over(true);
            }
        },
        Err(error) => {
            if bound.is_expired(now) {
                return StopTurn::Over(false);
            }
            return StopTurn::Failed(error.clone());
        },
    }
    match bound.remaining_at(now) {
        Remaining::Finite(left) => StopTurn::Sleep(min_duration(poll_interval, left)),
        Remaining::Expired => StopTurn::Over(false),
        Remaining::Unbounded => StopTurn::Sleep(poll_interval),
    }
}

/// A group is only ever said to have stopped on a reading that shows no live
/// member.
pub proof fn law_stopped_means_no_live_member(
    turn: StopTurn,
    members: Result<bool, Seq<char>>,
    left: Remaining,
    poll: u128,
)
    requires
        turn_is(turn, members, left, poll),
        turn == StopTurn::Over(true),
    ensures
        members == Ok::<bool, Seq<char>>(false),
{
}

/// A process that took the number of a recorded leader is never taken for it.
pub proof fn law_reused_number_is_not_alive(
    group: LocalProcessGroup,
    ticks: u64,
    members: Result<bool, Seq<char>>,
)
    requires
        ticks != group.leader_start_time_ticks,
    ensures
        group.shown(Ok(Some(ticks)), members) == Ok::<VerifiedStatus, Seq<char>>(
            VerifiedStatus::Reused,
        ),
{
}

/// A line of the process table shows a live member of a group exactly where it is a line
/// of that group and its process is no zombie.
pub proof fn law_zombies_and_strangers_are_no_members(
    line: Seq<char>,
    pid: Seq<char>,
    of: u32,
    state: Seq<char>,
    group: u32,
)
    requires
        words_of(line) == seq![pid, decimal(of as nat), state],
        state.len() > 0,
    ensures
        shows_member(line, decimal(group as nat)) <==> of == group && state[0] != 'Z',
{
    if decimal(of as nat) == decimal(group as nat) {
        crate::text::law_decimal_tells_numbers_apart(of as nat, group as nat);
    }
}

/// A group has live members exactly where the process table has a line of one, and a
/// query that failed tells nothing.
pub proof fn law_members_are_told_by_the_table(output: CommandOutput, group: u32)
    ensures
        members_told(output, group) is Ok <==> output.success,
        output.success ==> (members_told(output, group) == Ok::<bool, Seq<char>>(true) <==> exists|
            i: int,
        |
            0 <= i < text_lines(lossy_text(output.stdout@)).len() && shows_member(
                #[trigger] text_lines(lossy_text(output.stdout@))[i],
                decimal(group as nat),
            )),
{
}

/// A group is alive where its own leader is there with live members, gone where it has
/// none, and in doubt where it has members without its leader.
pub proof fn law_group_is_told_by_leader_and_members(
    group: LocalProcessGroup,
    start: Option<u64>,
    members: bool,
)
    ensures
        ({
            let told = group.shown(Ok(start), Ok(members));
            let own = start == Some(group.leader_start_time_ticks);
            &&& told == Ok::<VerifiedStatus, Seq<char>>(VerifiedStatus::Alive) <==> own && members
            &&& told == Ok::<VerifiedStatus, Seq<char>>(VerifiedStatus::Reused) <==> start is Some
                && !own
            &&& told == Ok::<VerifiedStatus, Seq<char>>(VerifiedStatus::LeaderMissingWithMembers)
                <==> start is None && members
            &&& told == Ok::<VerifiedStatus, Seq<char>>(VerifiedStatus::Exited) <==> !members && (
            own || start is None)
        }),
{
}

/// The wait for a group to stop goes on only while it has live members and time is left,
/// and never sleeps longer than the pause or than the time that is left.
pub proof fn law_wait_for_a_stop_is_bounded(
    turn: StopTurn,
    members: Result<bool, Seq<char>>,
    left: Remaining,
    poll: u128,
)
    requires
        turn_is(turn, members, left, poll),
    ensures
        turn is Sleep <==> members == Ok::<bool, Seq<char>>(true) && !(left is Expired),
        turn matches StopTurn::Sleep(pause) ==> pause <= poll && (left matches Remaining::Finite(rest)
            ==> pause <= rest) && (left is Unbounded ==> pause == poll),
        turn == StopTurn::Over(true) <==> members == Ok::<bool, Seq<char>>(false),
        turn is Failed ==> members is Err && !(left is Expired),
{
}

/// The start time of a process is the twentieth word behind its name in its status line,
/// whatever brackets and blanks the name holds.
pub proof fn law_start_time_is_read_behind_the_name(
    pid: u32,
    name: Seq<char>,
    rest: Seq<char>,
    ticks: u64,
)
    requires
        !rest.contains(')'),
        words_of(rest).len() > 19,
        words_of(rest)[19] == decimal(ticks as nat),
    ensures
        start_time(pid, name.push(')') + rest) == Ok::<u64, Seq<char>>(ticks),
{
    let stat = name.push(')') + rest;
    let at = name.len() as int;
    assert(stat[at] == ')');
    assert forall|j: int| at < j < stat.len() implies stat[j] != ')' by {
        assert(stat[j] == rest[j - at - 1]);
    }
    lemma_last_bracket(stat, at);
    assert(stat.skip(at + 1) =~= rest);
    crate::text::law_decimal_is_parsed_back(ticks as nat, u64::MAX as nat);
}

proof fn lemma_last_bracket(s: Seq<char>, at: int)
    requires
        0 <= at < s.len(),
        s[at] == ')',
        forall|j: int| at < j < s.len() ==> s[j] != ')',
    ensures
        last_position(s, ')') == at,
    decreases s.len(),
{
    if at < s.len() - 1 {
        lemma_last_bracket(s.drop_last(), at);
    }
}

/// A turn of waiting for a group goes on exactly where its leader could be reaped and time
/// is left; where the time is up, the group did not stop.
pub proof fn law_turn_goes_on_while_time_is_left(
    turn: Option<StopTurn>,
    reaped: Result<(), Seq<char>>,
    left_before: Remaining,
)
    requires
        ends_early(turn, reaped, left_before),
    ensures
        turn is None <==> reaped is Ok && !(left_before is Expired),
        reaped is Err ==> (turn matches Some(ended) && ended is Failed),
        reaped is Ok && left_before is Expired ==> turn == Some(StopTurn::Over(false)),
{
}

/// A cleanup command has an output exactly where it exited.
pub proof fn law_cleanup_command_has_an_output_where_it_exited(wait: BoundedWait)
    ensures
        cleanup_fault(wait) is None <==> wait is Exited,
{
}

} // verus!
