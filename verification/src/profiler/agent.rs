//! The session agents of the profiler, and how they are cleared away.

use crate::process_group::{CommandOutput, StopTurn};
use crate::profiler::target::{ProfilerLaunch, ProfilerTargetRecord};
use crate::search::{first_some, lemma_first_some_stays};
use crate::text::{
    cat2, cat4, decimal, decode_lossy, lines, lossy_text, parse_u32, parsed_unsigned,
    small_number_error, text_lines, text_of, texts, to_decimal, trim, trimmed,
};
use vstd::prelude::*;
use vstd::string::*;

verus! {

/// The time that an agent has to end after it was asked to, in nanoseconds.
pub const AGENT_TERM_GRACE: u128 = 2_000_000_000;

/// The time that an agent has to end after it was killed.
pub const AGENT_KILL_GRACE: u128 = 5_000_000_000;

/// The time between two looks at an agent.
pub const AGENT_POLL_INTERVAL: u128 = 100_000_000;

/// What came of clearing away the agent of a session.
#[derive(Debug)]
pub struct ProfilerCleanupRecord {
    pub session: String,
    pub strategy: String,
    pub pids: Vec<u32>,
    pub already_exited: bool,
    pub term_sent: bool,
    pub kill_sent: bool,
    pub verified: bool,
    pub error: Option<String>,
}

/// What came of clearing away the agent of a session, as values.
#[verifier::ext_equal]
pub struct AgentView {
    pub session: Seq<char>,
    pub strategy: Seq<char>,
    pub pids: Seq<u32>,
    pub already_exited: bool,
    pub term_sent: bool,
    pub kill_sent: bool,
    pub verified: bool,
    pub error: Option<Seq<char>>,
}

impl View for ProfilerCleanupRecord {
    type V = AgentView;

    open spec fn view(&self) -> AgentView {
        AgentView {
            session: self.session@,
            strategy: self.strategy@,
            pids: self.pids@,
            already_exited: self.already_exited,
            term_sent: self.term_sent,
            kill_sent: self.kill_sent,
            verified: self.verified,
            error: text_of(self.error),
        }
    }
}

/// How the agent of a target is found.
pub open spec fn strategy_of(launch: ProfilerLaunch) -> Seq<char> {
    match launch {
        ProfilerLaunch::Local => "local-pgrep-command-line"@,
        ProfilerLaunch::Ssh { .. } => "ssh-pgrep-command-line"@,
    }
}

/// A cleanup that ended in a known way.
pub open spec fn agent_outcome(
    target: ProfilerTargetRecord,
    pids: Seq<u32>,
    already_exited: bool,
    term_sent: bool,
    kill_sent: bool,
    verified: bool,
    error: Option<Seq<char>>,
) -> AgentView {
    AgentView {
        session: target.session@,
        strategy: strategy_of(target.launch),
        pids,
        already_exited,
        term_sent,
        kill_sent,
        verified,
        error,
    }
}

fn outcome(
    target: &ProfilerTargetRecord,
    pids: Vec<u32>,
    already_exited: bool,
    term_sent: bool,
    kill_sent: bool,
    verified: bool,
    error: Option<String>,
) -> (r: ProfilerCleanupRecord)
    ensures
        r@ == agent_outcome(
            *target,
            pids@,
            already_exited,
            term_sent,
            kill_sent,
            verified,
            text_of(error),
        ),
{
    ProfilerCleanupRecord {
        session: target.session.clone(),
        strategy: match &target.launch {
            ProfilerLaunch::Local => "local-pgrep-command-line".to_owned(),
            ProfilerLaunch::Ssh { .. } => "ssh-pgrep-command-line".to_owned(),
        },
        pids,
        already_exited,
        term_sent,
        kill_sent,
        verified,
        error,
    }
}

/// A cleanup that could not be done.
pub open spec fn agent_unavailable(target: ProfilerTargetRecord, error: Seq<char>) -> AgentView {
    agent_outcome(target, Seq::empty(), false, false, false, false, Some(error))
}

/// A cleanup that could not be done.
pub fn cleanup_error(target: &ProfilerTargetRecord, error: String) -> (r: ProfilerCleanupRecord)
    ensures
        r@ == agent_unavailable(*target, error@),
{
    let pids: Vec<u32> = Vec::new();
    assert(pids@ =~= Seq::empty());
    outcome(target, pids, false, false, false, false, Some(error))
}

// ---------------------------------------------------------------------------
// Finding the agent

/// The words that look for the agent of a session.
pub fn pgrep_argv(target: &ProfilerTargetRecord) -> (r: Vec<String>)
    ensures
        texts(r@) == seq![
            "pgrep"@,
            "-f"@,
            "nsys --start-agent --session-name "@ + target.session@,
        ],
{
    let argv = vec![
        "pgrep".to_owned(),
        "-f".to_owned(),
        cat2("nsys --start-agent --session-name ", target.session.as_str()),
    ];
    assert(texts(argv@) =~= seq![
        "pgrep"@,
        "-f"@,
        "nsys --start-agent --session-name "@ + target.session@,
    ]);
    argv
}

/// The numbers on the first lines, or the fault of the first line that is none;
/// blank lines are passed over.
pub open spec fn pids_until(rows: Seq<Seq<char>>, n: int) -> Result<Seq<u32>, Seq<char>>
    decreases n,
{
    if n <= 0 {
        Ok(Seq::empty())
    } else {
        match pids_until(rows, n - 1) {
            Err(text) => Err(text),
            Ok(pids) => {
                let row = trimmed(rows[n - 1]);
                if row.len() == 0 {
                    Ok(pids)
                } else {
                    match parsed_unsigned(row, u32::MAX as nat) {
                        Some(pid) => Ok(pids.push(pid as u32)),
                        None => Err(small_number_error(row)),
                    }
                }
            },
        }
    }
}

/// The numbers in an output.
pub open spec fn pids_in(output: Seq<char>) -> Result<Seq<u32>, Seq<char>> {
    pids_until(text_lines(output), text_lines(output).len() as int)
}

proof fn lemma_pids_fail(rows: Seq<Seq<char>>, n: int, m: int)
    requires
        n <= m,
        pids_until(rows, n) is Err,
    ensures
        pids_until(rows, m) == pids_until(rows, n),
    decreases m - n,
{
    if n < m {
        lemma_pids_fail(rows, n, m - 1);
    }
}

fn read_pids(output: &str) -> (r: Result<Vec<u32>, String>)
    ensures
        match pids_in(output@) {
            Ok(pids) => r matches Ok(found) && found@ == pids,
            Err(text) => r matches Err(found) && found@ == text,
        },
{
    let rows = lines(output);
    let ghost all = text_lines(output@);
    let mut pids: Vec<u32> = Vec::new();
    let mut i: usize = 0;
    assert(pids@ =~= Seq::empty());
    while i < rows.len()
        invariant
            i <= rows@.len(),
            texts(rows@) == all,
            all == text_lines(output@),
            pids_until(all, i as int) == Ok::<Seq<u32>, Seq<char>>(pids@),
        decreases rows@.len() - i,
    {
        assert(all[i as int] == rows@[i as int]@);
        let row = trim(rows[i].as_str());
        if !row.is_empty() {
            match parse_u32(row) {
                Ok(pid) => {
                    pids.push(pid);
                },
                Err(error) => {
                    proof {
                        lemma_pids_fail(all, i + 1, all.len() as int);
                    }
                    return Err(error);
                },
            }
        }
        i += 1;
    }
    Ok(pids)
}

// ---------------------------------------------------------------------------
// Signals

/// The words that send a signal to an agent.
pub fn signal_argv(signal: &str, pid: u32) -> (r: Vec<String>)
    ensures
        texts(r@) == seq!["kill"@, signal@, "--"@, decimal(pid as nat)],
{
    let argv = vec![
        "kill".to_owned(),
        signal.to_owned(),
        "--".to_owned(),
        to_decimal(pid as u64),
    ];
    assert(texts(argv@) =~= seq!["kill"@, signal@, "--"@, decimal(pid as nat)]);
    argv
}

/// Why the first signals were not sent.
pub open spec fn signal_fault(answers: Seq<Result<CommandOutput, String>>) -> spec_fn(int) -> Option<
    Seq<char>,
> {
    |i: int|
        match answers[i] {
            Err(error) => Some(error@),
            Ok(_) => None,
        }
}

/// Whether every signal was taken.
pub open spec fn all_taken(answers: Seq<Result<CommandOutput, String>>) -> bool {
    forall|i: int| 0 <= i < answers.len() ==> (#[trigger] answers[i]) is Ok && answers[i]->Ok_0.success
}

/// Whether the signals to the agents were taken, from the answers to their
/// commands; the first that could not be sent ends it.
pub fn signal_pids(answers: &[Result<CommandOutput, String>]) -> (r: Result<bool, String>)
    ensures
        match first_some(answers@.len(), signal_fault(answers@)) {
            Some(text) => r matches Err(found) && found@ == text,
            None => r == Ok::<bool, String>(all_taken(answers@)),
        },
{
    let ghost fault = signal_fault(answers@);
    let mut taken: bool = true;
    let mut i: usize = 0;
    while i < answers.len()
        invariant
            i <= answers@.len(),
            fault == signal_fault(answers@),
            first_some(i as nat, fault) is None,
            taken == forall|j: int|
                0 <= j < i ==> (#[trigger] answers@[j]) is Ok && answers@[j]->Ok_0.success,
        decreases answers@.len() - i,
    {
        match &answers[i] {
            Err(error) => {
                proof {
                    assert(fault(i as int) == Some(error@));
                    lemma_first_some_stays((i + 1) as nat, answers@.len(), fault);
                }
                return Err(error.clone());
            },
            Ok(output) => {
                assert(fault(i as int) is None);
                if !output.success {
                    taken = false;
                }
            },
        }
        i += 1;
    }
    Ok(taken)
}

/// Whether an agent on another machine lives, from the answer to a signal that
/// does nothing.
pub fn target_pid_alive(pid: u32, answer: &Result<CommandOutput, String>) -> (r: Result<bool, String>)
    ensures
        match *answer {
            Err(error) => r matches Err(found) && found@ == error@,
            Ok(output) => if output.exit_code == Some(0i32) {
                r == Ok::<bool, String>(true)
            } else if output.exit_code == Some(1i32) {
                r == Ok::<bool, String>(false)
            } else {
                r matches Err(found) && found@ == "failed to verify profiler PID "@ + decimal(
                    pid as nat,
                ) + ": "@ + trimmed(lossy_text(output.stderr@))
            },
        },
{
    match answer {
        Err(error) => Err(error.clone()),
        Ok(output) => match output.exit_code {
            Some(0) => Ok(true),
            Some(1) => Ok(false),
            _ => {
                let errors = decode_lossy(output.stderr.as_slice());
                Err(
                    cat4(
                        "failed to verify profiler PID ",
                        to_decimal(pid as u64).as_str(),
                        ": ",
                        trim(errors.as_str()),
                    ),
                )
            },
        },
    }
}

/// Why the first looks at agents told nothing.
pub open spec fn look_fault(alive: Seq<Result<bool, String>>) -> spec_fn(int) -> Option<Seq<char>> {
    |i: int|
        match alive[i] {
            Err(error) => Some(error@),
            Ok(_) => None,
        }
}

/// Whether a look found an agent alive.
pub open spec fn any_alive(alive: Seq<Result<bool, String>>) -> bool {
    exists|i: int| 0 <= i < alive.len() && #[trigger] alive[i] == Ok::<bool, String>(true)
}

/// One turn of waiting until the agents are gone, with a look at each.
pub fn wait_for_pids(alive: &[Result<bool, String>], now: u128, deadline: u128) -> (r: StopTurn)
    ensures
        match first_some(alive@.len(), look_fault(alive@)) {
            Some(text) => r matches StopTurn::Failed(found) && found@ == text,
            None => r == if !any_alive(alive@) {
                StopTurn::Over(true)
            } else if now >= deadline {
                StopTurn::Over(false)
            } else {
                StopTurn::Sleep(AGENT_POLL_INTERVAL)
            },
        },
{
    let ghost fault = look_fault(alive@);
    let mut found: bool = false;
    let mut i: usize = 0;
    while i < alive.len()
        invariant
            i <= alive@.len(),
            fault == look_fault(alive@),
            first_some(i as nat, fault) is None,
            found == exists|j: int|
                0 <= j < i && #[trigger] alive@[j] == Ok::<bool, String>(true),
        decreases alive@.len() - i,
    {
        match &alive[i] {
            Err(error) => {
                proof {
                    assert(fault(i as int) == Some(error@));
                    lemma_first_some_stays((i + 1) as nat, alive@.len(), fault);
                }
                return StopTurn::Failed(error.clone());
            },
            Ok(lives) => {
                assert(fault(i as int) is None);
                if *lives {
                    assert(alive@[i as int] == Ok::<bool, String>(true));
                    found = true;
                }
            },
        }
        i += 1;
    }
    if !found {
        StopTurn::Over(true)
    } else if now >= deadline {
        StopTurn::Over(false)
    } else {
        StopTurn::Sleep(AGENT_POLL_INTERVAL)
    }
}

// ---------------------------------------------------------------------------
// Cleanup

/// What came of a step of clearing away an agent.
#[derive(Debug)]
pub enum AgentEvent {
    /// The agent was looked for.
    Searched { answer: Result<CommandOutput, String> },
    /// The agents were asked to end; whether they did in time.
    Asked { sent: Result<bool, String>, stopped: Result<bool, String> },
    /// The agents were killed; whether they ended in time.
    Killed { sent: Result<bool, String>, stopped: Result<bool, String> },
}

/// What to do next about an agent.
#[derive(Debug)]
pub enum AgentAction {
    /// Ask the agents to end, and give them [`AGENT_TERM_GRACE`].
    Ask { pids: Vec<u32> },
    /// Kill the agents, and give them [`AGENT_KILL_GRACE`].
    Kill { pids: Vec<u32>, term_sent: bool },
    /// The cleanup is over.
    Done { record: ProfilerCleanupRecord },
}

/// Whether an event can come of the last action; at first the agent is looked for.
pub open spec fn agent_expects(last: Option<AgentAction>, event: AgentEvent) -> bool {
    match last {
        None => event is Searched,
        Some(AgentAction::Ask { .. }) => event is Asked,
        Some(AgentAction::Kill { .. }) => event is Killed,
        Some(AgentAction::Done { .. }) => false,
    }
}

/// The processes that an action is about.
pub open spec fn agents_of(last: Option<AgentAction>) -> Seq<u32> {
    match last {
        Some(AgentAction::Ask { pids }) => pids@,
        Some(AgentAction::Kill { pids, .. }) => pids@,
        _ => Seq::empty(),
    }
}

/// Whether an action ends the cleanup with the record.
pub open spec fn agent_done(action: AgentAction, expected: AgentView) -> bool {
    action matches AgentAction::Done { record } && record@ == expected
}

/// Whether a signal was taken by all; one that could not be sent was not.
pub open spec fn was_sent(sent: Result<bool, String>) -> bool {
    sent == Ok::<bool, String>(true)
}

/// Whether an action is the one that an event calls for.
pub open spec fn agent_step(
    action: AgentAction,
    target: ProfilerTargetRecord,
    last: Option<AgentAction>,
    event: AgentEvent,
) -> bool {
    let pids = agents_of(last);
    match event {
        AgentEvent::Searched { answer } => match answer {
            Err(error) => agent_done(
                action,
                agent_unavailable(target, "failed to launch pgrep: "@ + error@),
            ),
            Ok(output) => if output.exit_code == Some(1i32) {
                agent_done(
                    action,
                    agent_outcome(target, Seq::empty(), true, false, false, true, None),
                )
            } else if !output.success {
                agent_done(
                    action,
                    agent_unavailable(
                        target,
                        "pgrep failed: "@ + trimmed(lossy_text(output.stderr@)),
                    ),
                )
            } else {
                match pids_in(lossy_text(output.stdout@)) {
                    Err(text) => agent_done(
                        action,
                        agent_unavailable(target, "pgrep returned an invalid PID: "@ + text),
                    ),
                    Ok(found) => action matches AgentAction::Ask { pids } && pids@ == found,
                }
            },
        },
        AgentEvent::Asked { sent, stopped } => match stopped {
            Ok(true) => agent_done(
                action,
                agent_outcome(target, pids, false, was_sent(sent), false, true, None),
            ),
            Ok(false) => action matches AgentAction::Kill { pids: kept, term_sent } && kept@ == pids
                && term_sent == was_sent(sent),
            Err(error) => agent_done(
                action,
                agent_outcome(target, pids, false, was_sent(sent), false, false, Some(error@)),
            ),
        },
        AgentEvent::Killed { sent, stopped } => agent_done(
            action,
            match stopped {
                Ok(true) => agent_outcome(
                    target,
                    pids,
                    false,
                    last->0->term_sent,
                    was_sent(sent),
                    true,
                    None,
                ),
                Ok(false) => agent_outcome(
                    target,
                    pids,
                    false,
                    last->0->term_sent,
                    was_sent(sent),
                    false,
                    Some("Nsight Systems session agent remained alive"@),
                ),
                Err(error) => agent_outcome(
                    target,
                    pids,
                    false,
                    last->0->term_sent,
                    was_sent(sent),
                    false,
                    Some(error@),
                ),
            },
        ),
    }
}

fn taken(sent: &Result<bool, String>) -> (r: bool)
    ensures
        r == was_sent(*sent),
{
    match sent {
        Ok(all) => *all,
        Err(_) => false,
    }
}

/// One step of clearing away the agent of a target's session: it is looked for,
/// asked to end, and killed. `last` is the action that the event came of.
pub fn cleanup_target_agent(
    target: &ProfilerTargetRecord,
    last: Option<AgentAction>,
    event: AgentEvent,
) -> (r: AgentAction)
    requires
        agent_expects(last, event),
    ensures
        agent_step(r, *target, last, event),
{
    let ghost before = last;
    let (pids, term_sent): (Vec<u32>, bool) = match last {
        Some(AgentAction::Ask { pids }) => (pids, false),
        Some(AgentAction::Kill { pids, term_sent }) => (pids, term_sent),
        _ => (Vec::new(), false),
    };
    assert(pids@ =~= agents_of(before));
    match event {
        AgentEvent::Searched { answer } => {
            let output = match answer {
                Err(error) => {
                    return AgentAction::Done {
                        record: cleanup_error(
                            target,
                            cat2("failed to launch pgrep: ", error.as_str()),
                        ),
                    };
                },
                Ok(output) => output,
            };
            let nothing_found: bool = match output.exit_code {
                Some(code) => code == 1,
                None => false,
            };
            if nothing_found {
                return AgentAction::Done {
                    record: outcome(target, pids, true, false, false, true, None),
                };
            }
            if !output.success {
                let errors = decode_lossy(output.stderr.as_slice());
                return AgentAction::Done {
                    record: cleanup_error(
                        target,
                        cat2("pgrep failed: ", trim(errors.as_str())),
                    ),
                };
            }
            match read_pids(decode_lossy(output.stdout.as_slice()).as_str()) {
                Err(error) => AgentAction::Done {
                    record: cleanup_error(
                        target,
                        cat2("pgrep returned an invalid PID: ", error.as_str()),
                    ),
                },
                Ok(pids) => AgentAction::Ask { pids },
            }
        },
        AgentEvent::Asked { sent, stopped } => {
            let term_sent: bool = taken(&sent);
            match stopped {
                Ok(true) => AgentAction::Done {
                    record: outcome(target, pids, false, term_sent, false, true, None),
                },
                Ok(false) => AgentAction::Kill { pids, term_sent },
                Err(error) => AgentAction::Done {
                    record: outcome(target, pids, false, term_sent, false, false, Some(error)),
                },
            }
        },
        AgentEvent::Killed { sent, stopped } => {
            let kill_sent: bool = taken(&sent);
            let (verified, error): (bool, Option<String>) = match stopped {
                Ok(true) => (true, None),
                Ok(false) => (
                    false,
                    Some("Nsight Systems session agent remained alive".to_owned()),
                ),
                Err(error) => (false, Some(error)),
            };
            AgentAction::Done {
                record: outcome(target, pids, false, term_sent, kill_sent, verified, error),
            }
        },
    }
}

// ---------------------------------------------------------------------------
// Laws

/// An agent is only said to be cleared away where none was found or every one was
/// seen gone; otherwise the record says why.
pub proof fn law_verified_agent_cleanup_saw_it_gone(
    action: AgentAction,
    target: ProfilerTargetRecord,
    last: Option<AgentAction>,
    event: AgentEvent,
)
    requires
        agent_expects(last, event),
        agent_step(action, target, last, event),
        action is Done,
    ensures
        action->record@.verified <==> action->record@.error is None,
        action->record@.verified ==> match event {
            AgentEvent::Searched { answer } => answer is Ok && answer->Ok_0.exit_code == Some(1i32),
            AgentEvent::Asked { stopped, .. } => stopped == Ok::<bool, String>(true),
            AgentEvent::Killed { stopped, .. } => stopped == Ok::<bool, String>(true),
        },
{
}

/// Agents are killed only after they were asked to end and did not, and it is the
/// same ones.
pub proof fn law_agents_are_asked_before_killed(
    action: AgentAction,
    target: ProfilerTargetRecord,
    last: Option<AgentAction>,
    event: AgentEvent,
)
    requires
        agent_expects(last, event),
        agent_step(action, target, last, event),
        action is Kill,
    ensures
        last matches Some(AgentAction::Ask { pids }) && agents_of(Some(action)) == pids@,
        event matches AgentEvent::Asked { stopped, .. } && stopped == Ok::<bool, String>(false),
{
}

/// The agents that a search finds, one on each line, are those that are asked to end.
pub proof fn law_found_agents_are_asked(rows: Seq<Seq<char>>, pids: Seq<u32>, n: int)
    requires
        0 <= n <= rows.len(),
        rows.len() == pids.len(),
        forall|i: int|
            0 <= i < rows.len() ==> trimmed(#[trigger] rows[i]) == crate::text::decimal(
                pids[i] as nat,
            ),
    ensures
        pids_until(rows, n) == Ok::<Seq<u32>, Seq<char>>(pids.take(n)),
    decreases n,
{
    if n > 0 {
        law_found_agents_are_asked(rows, pids, n - 1);
        assert(trimmed(rows[n - 1]) == crate::text::decimal(pids[n - 1] as nat));
        crate::text::law_decimal_reads_back(pids[n - 1] as nat);
        crate::text::law_decimal_is_parsed_back(pids[n - 1] as nat, u32::MAX as nat);
        assert(pids.take(n - 1).push(pids[n - 1]) =~= pids.take(n));
    } else {
        assert(pids.take(0) =~= Seq::empty());
    }
}

/// The record of a cleanup is that of the target's own session and of the agents that it
/// was about, and says which signals were taken: none was killed that was only asked, and
/// nothing was signalled where nothing was found.
pub proof fn law_agent_cleanup_tells_what_was_done(
    action: AgentAction,
    target: ProfilerTargetRecord,
    last: Option<AgentAction>,
    event: AgentEvent,
)
    requires
        agent_expects(last, event),
        agent_step(action, target, last, event),
        action is Done,
    ensures
        action->record@.session == target.session@,
        target.launch is Local <==> action->record@.strategy == "local-pgrep-command-line"@,
        event is Searched ==> action->record@.pids.len() == 0 && !action->record@.term_sent
            && !action->record@.kill_sent,
        event matches AgentEvent::Asked { sent, .. } ==> action->record@.pids == agents_of(last)
            && !action->record@.kill_sent && (action->record@.term_sent <==> sent == Ok::<
            bool,
            String,
        >(true)),
        event matches AgentEvent::Killed { sent, .. } ==> action->record@.pids == agents_of(last) && (
        action->record@.kill_sent <==> sent == Ok::<bool, String>(true)) && (
        last matches Some(AgentAction::Kill { term_sent, .. }) && action->record@.term_sent
            == term_sent),
        action->record@.already_exited <==> (event matches AgentEvent::Searched { answer: Ok(output) }
            && output.exit_code == Some(1i32)),
{
    reveal_strlit("local-pgrep-command-line");
    reveal_strlit("ssh-pgrep-command-line");
    assert("local-pgrep-command-line"@.len() != "ssh-pgrep-command-line"@.len());
}

} // verus!
