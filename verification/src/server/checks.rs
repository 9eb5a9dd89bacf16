//! Environment checks on a remote machine's own installation.

use crate::process_group::{passed, CommandOutput};
use crate::resolve::composition::CheckRealization;
use crate::search::{first_some, lemma_first_some_stays};
use crate::shell::{quoted, shell_quote, shell_quote_path};
use crate::text::{
    cat2, cat3, cat4, cat6, cat7, debug, debug_text, decode_lossy, lossy_text, trim, trim_end, trimmed,
    trimmed_end,
};
use vstd::prelude::*;
use vstd::string::*;

verus! {

/// An environment check to run.
#[derive(Debug)]
pub struct PlannedEnvironmentCheck {
    pub id: String,
    pub script: String,
    pub repair_hint: Option<String>,
}

/// How an environment check ended.
#[derive(Clone, Copy, Debug, PartialEq, Eq, Structural)]
pub enum CheckOutcome {
    Passed,
    Failed,
}

/// What came of an environment check on a machine's own installation.
#[derive(Debug)]
pub struct EnvironmentCheckEvidence {
    pub id: String,
    pub realization: CheckRealization,
    pub machine: Option<String>,
    pub outcome: CheckOutcome,
    pub output: Option<String>,
    /// Where the output is kept, where it is not kept here.
    pub log: Option<String>,
}

/// An environment check that failed.
#[derive(Debug)]
pub struct LocalCheckFailure {
    pub id: String,
    pub repair_hint: Option<String>,
    pub output: String,
}

/// The script of an environment check on a remote machine.
pub fn remote_check_script(root: &str, pixi: &str, pixi_environment: &str, script: &str) -> (r: String)
    ensures
        r@ == "cd "@ + quoted(root@) + " && "@ + quoted(pixi@)
            + " run --locked --no-install --executable -e "@ + quoted(pixi_environment@)
            + (" -- python "@ + quoted(script@)),
{
    let tail = cat2(" -- python ", shell_quote_path(script).as_str());
    cat7(
        "cd ",
        shell_quote_path(root).as_str(),
        " && ",
        shell_quote(pixi).as_str(),
        " run --locked --no-install --executable -e ",
        shell_quote(pixi_environment).as_str(),
        tail.as_str(),
    )
}

/// The last characters of a text, as many as allowed.
pub open spec fn tail_of(text: Seq<char>, most: nat) -> Seq<char> {
    if text.len() <= most {
        text
    } else {
        text.skip(text.len() - most)
    }
}

/// The last characters of a text, as many as allowed.
pub fn tail(text: &str, most: usize) -> (r: String)
    ensures
        r@ == tail_of(text@, most as nat),
{
    let n: usize = text.unicode_len();
    if n <= most {
        text.to_owned()
    } else {
        let cut = text.substring_char(n - most, n);
        assert(cut@ =~= text@.skip(n - most));
        cut.to_owned()
    }
}

/// What a check printed: its output, then its errors where there are any.
pub open spec fn printed(output: CommandOutput) -> Seq<char> {
    let out = lossy_text(output.stdout@);
    let err = lossy_text(output.stderr@);
    if trimmed(err).len() == 0 {
        out
    } else if out.len() == 0 {
        trimmed_end(err)
    } else {
        out + "\n"@ + trimmed_end(err)
    }
}

fn combine(output: &CommandOutput) -> (r: String)
    ensures
        r@ == printed(*output),
{
    let out = decode_lossy(output.stdout.as_slice());
    let err = decode_lossy(output.stderr.as_slice());
    if trim(err.as_str()).is_empty() {
        out
    } else if out.as_str().is_empty() {
        trim_end(err.as_str()).to_owned()
    } else {
        cat3(out.as_str(), "\n", trim_end(err.as_str()))
    }
}

/// Whether evidence is that of a check that ran.
pub open spec fn is_evidence(
    evidence: EnvironmentCheckEvidence,
    check: PlannedEnvironmentCheck,
    machine: Seq<char>,
    output: CommandOutput,
) -> bool {
    &&& evidence.id == check.id
    &&& evidence.realization == CheckRealization::LocalWorkspace
    &&& evidence.machine is Some
    &&& evidence.machine->0@ == machine
    &&& evidence.outcome == if output.success {
        CheckOutcome::Passed
    } else {
        CheckOutcome::Failed
    }
    &&& evidence.output is Some
    &&& evidence.output->0@ == tail_of(printed(output), 4096)
    &&& evidence.log is None
}

/// How the run of checks stops, by place: at a check that cannot be run, or at
/// one that fails.
pub enum CheckStop {
    Unrun { text: Seq<char> },
    Failed,
}

/// Where a run of checks stops.
pub open spec fn check_stops(
    checks: Seq<PlannedEnvironmentCheck>,
    machine: Seq<char>,
    answers: Seq<Result<CommandOutput, String>>,
) -> spec_fn(int) -> Option<CheckStop> {
    |i: int|
        match answers[i] {
            Err(source) => Some(
                CheckStop::Unrun {
                    text: "failed to run environment check "@ + debug_text(checks[i].id@)
                        + " on machine "@ + debug_text(machine) + ": "@ + source@,
                },
            ),
            Ok(output) => if output.success {
                None
            } else {
                Some(CheckStop::Failed)
            },
        }
}

/// What came of the checks of a machine, in order: the first failure ends the
/// run, and the evidence covers every check that was run. There is an answer for
/// each check up to the one that ended the run, or for all of them.
pub fn run_remote_checks(
    checks: &[PlannedEnvironmentCheck],
    machine: &str,
    answers: &[Result<CommandOutput, String>],
) -> (r: Result<(Vec<EnvironmentCheckEvidence>, Option<LocalCheckFailure>), String>)
    requires
        answers@.len() <= checks@.len(),
        answers@.len() < checks@.len() ==> answers@.len() > 0 && !passed(answers@.last()),
    ensures
        match first_some(answers@.len(), check_stops(checks@, machine@, answers@)) {
            Some(CheckStop::Unrun { text }) => r matches Err(found) && found@ == text,
            Some(CheckStop::Failed) => r matches Ok((evidence, Some(failure))) && {
                let last = evidence@.len() - 1;
                &&& 0 <= last < answers@.len()
                &&& answers@[last] matches Ok(output) && !output.success && failure.output@ == tail_of(
                    printed(output),
                    4096,
                )
                &&& failure.id == checks@[last].id
                &&& failure.repair_hint == checks@[last].repair_hint
                &&& forall|i: int| 0 <= i <= last ==> (#[trigger] answers@[i]) is Ok
                &&& forall|i: int|
                    0 <= i <= last ==> is_evidence(
                        #[trigger] evidence@[i],
                        checks@[i],
                        machine@,
                        answers@[i]->Ok_0,
                    )
                &&& forall|i: int| 0 <= i < last ==> (#[trigger] answers@[i])->Ok_0.success
            },
            None => r matches Ok((evidence, None)) && {
                &&& evidence@.len() == answers@.len() == checks@.len()
                &&& forall|i: int| 0 <= i < answers@.len() ==> (#[trigger] answers@[i]) is Ok
                &&& forall|i: int|
                    0 <= i < evidence@.len() ==> is_evidence(
                        #[trigger] evidence@[i],
                        checks@[i],
                        machine@,
                        answers@[i]->Ok_0,
                    )
            },
        },
{
    let ghost f = check_stops(checks@, machine@, answers@);
    let mut evidence: Vec<EnvironmentCheckEvidence> = Vec::new();
    let mut i: usize = 0;
    while i < answers.len()
        invariant
            i <= answers@.len() <= checks@.len(),
            f == check_stops(checks@, machine@, answers@),
            first_some(i as nat, f) is None,
            evidence@.len() == i,
            forall|j: int| 0 <= j < i ==> (#[trigger] answers@[j]) is Ok,
            forall|j: int|
                0 <= j < i ==> is_evidence(
                    #[trigger] evidence@[j],
                    checks@[j],
                    machine@,
                    answers@[j]->Ok_0,
                ),
            forall|j: int| 0 <= j < i ==> (#[trigger] answers@[j])->Ok_0.success,
        decreases answers@.len() - i,
    {
        let check = &checks[i];
        assert(f(i as int) == match answers@[i as int] {
            Err(source) => Some(
                CheckStop::Unrun {
                    text: "failed to run environment check "@ + debug_text(check.id@)
                        + " on machine "@ + debug_text(machine@) + ": "@ + source@,
                },
            ),
            Ok(output) => if output.success {
                None
            } else {
                Some(CheckStop::Failed)
            },
        });
        let output = match &answers[i] {
            Ok(output) => output,
            Err(source) => {
                proof {
                    lemma_first_some_stays((i + 1) as nat, answers@.len(), f);
                }
                return Err(
                    cat6(
                        "failed to run environment check ",
                        debug(check.id.as_str()).as_str(),
                        " on machine ",
                        debug(machine).as_str(),
                        ": ",
                        source.as_str(),
                    ),
                );
            },
        };
        let combined = tail(combine(output).as_str(), 4096);
        evidence.push(
            EnvironmentCheckEvidence {
                id: check.id.clone(),
                realization: CheckRealization::LocalWorkspace,
                machine: Some(machine.to_owned()),
                outcome: if output.success {
                    CheckOutcome::Passed
                } else {
                    CheckOutcome::Failed
                },
                output: Some(combined.clone()),
                log: None,
            },
        );
        assert(is_evidence(evidence@[i as int], *check, machine@, *output));
        if !output.success {
            proof {
                lemma_first_some_stays((i + 1) as nat, answers@.len(), f);
            }
            let repair_hint = match &check.repair_hint {
                Some(hint) => Some(hint.clone()),
                None => None,
            };
            return Ok(
                (
                    evidence,
                    Some(LocalCheckFailure { id: check.id.clone(), repair_hint, output: combined }),
                ),
            );
        }
        i += 1;
    }
    Ok((evidence, None))
}

/// What the operator is told of a check that failed on a machine.
pub fn remote_check_message(failure: &LocalCheckFailure, machine: &str, pixi_environment: &str) -> (r:
    String)
    ensures
        r@ == "environment check "@ + debug_text(failure.id@) + " failed on machine "@ + debug_text(
            machine@,
        ) + " realization of Pixi environment "@ + debug_text(pixi_environment@) + (": "@ + trimmed(
            failure.output@,
        ) + match failure.repair_hint {
            Some(hint) => "; repair on "@ + debug_text(machine@) + ": "@ + hint@,
            None => Seq::empty(),
        }),
{
    let repair = match &failure.repair_hint {
        Some(hint) => cat4("; repair on ", debug(machine).as_str(), ": ", hint.as_str()),
        None => String::new(),
    };
    assert(repair@ =~= match failure.repair_hint {
        Some(hint) => "; repair on "@ + debug_text(machine@) + ": "@ + hint@,
        None => Seq::empty(),
    });
    let end = cat3(": ", trim(failure.output.as_str()), repair.as_str());
    cat7(
        "environment check ",
        debug(failure.id.as_str()).as_str(),
        " failed on machine ",
        debug(machine).as_str(),
        " realization of Pixi environment ",
        debug(pixi_environment).as_str(),
        end.as_str(),
    )
}

// ---------------------------------------------------------------------------
// Laws

/// What is kept of a text is its end: all of it where it fits, else as much as is
/// allowed.
pub proof fn law_tail_is_the_end_of_the_text(text: Seq<char>, most: nat)
    ensures
        text.len() <= most ==> tail_of(text, most) == text,
        text.len() > most ==> tail_of(text, most).len() == most,
        forall|i: int|
            0 <= i < tail_of(text, most).len() ==> #[trigger] tail_of(text, most)[i] == text[text.len()
                - tail_of(text, most).len() + i],
{
}

/// What a check printed begins with its output and ends with its errors, and holds no
/// less than either.
pub proof fn law_output_comes_before_errors(output: CommandOutput)
    ensures
        ({
            let out = lossy_text(output.stdout@);
            let err = lossy_text(output.stderr@);
            let all = printed(output);
            &&& trimmed(err).len() == 0 ==> all == out
            &&& all.len() >= out.len()
            &&& all.take(out.len() as int) == out
            &&& trimmed(err).len() > 0 ==> all.len() >= trimmed_end(err).len() && all.skip(
                all.len() - trimmed_end(err).len(),
            ) == trimmed_end(err)
        }),
{
    let out = lossy_text(output.stdout@);
    let err = lossy_text(output.stderr@);
    let all = printed(output);
    assert(all.take(out.len() as int) =~= out);
    if trimmed(err).len() > 0 {
        assert(all.skip(all.len() - trimmed_end(err).len()) =~= trimmed_end(err));
    }
}

/// A check passed exactly where its command succeeded, and its evidence names the check
/// and the machine that it ran on.
pub proof fn law_check_passes_with_its_command(
    evidence: EnvironmentCheckEvidence,
    check: PlannedEnvironmentCheck,
    machine: Seq<char>,
    output: CommandOutput,
)
    requires
        is_evidence(evidence, check, machine, output),
    ensures
        evidence.outcome == CheckOutcome::Passed <==> output.success,
        evidence.outcome == CheckOutcome::Failed <==> !output.success,
        evidence.id@ == check.id@,
        evidence.machine matches Some(at) && at@ == machine,
{
}

/// A run of checks goes through exactly where every check could be run and passed; else
/// the first that did not ends it.
pub proof fn law_first_failed_check_ends_the_run(
    checks: Seq<PlannedEnvironmentCheck>,
    machine: Seq<char>,
    answers: Seq<Result<CommandOutput, String>>,
)
    ensures
        first_some(answers.len(), check_stops(checks, machine, answers)) is None <==> forall|i: int|
            0 <= i < answers.len() ==> ((#[trigger] answers[i]) matches Ok(output) && output.success),
        forall|i: int|
            0 <= i < answers.len() && (forall|j: int|
                0 <= j < i ==> ((#[trigger] answers[j]) matches Ok(output) && output.success)) ==> {
                &&& (#[trigger] answers[i]) is Err ==> (first_some(
                    answers.len(),
                    check_stops(checks, machine, answers),
                ) is Some && first_some(
                    answers.len(),
                    check_stops(checks, machine, answers),
                )->0 is Unrun)
                &&& answers[i] is Ok && !answers[i]->Ok_0.success ==> first_some(
                    answers.len(),
                    check_stops(checks, machine, answers),
                ) == Some(CheckStop::Failed)
            },
{
    let f = check_stops(checks, machine, answers);
    crate::search::lemma_first_some_none(answers.len(), f);
    if first_some(answers.len(), f) is None {
        assert forall|i: int| 0 <= i < answers.len() implies ((#[trigger] answers[i]) matches Ok(
            output,
        ) && output.success) by {
            assert(f(i) is None);
        }
    }
    if forall|i: int|
        0 <= i < answers.len() ==> ((#[trigger] answers[i]) matches Ok(output) && output.success) {
        assert forall|i: int| 0 <= i < answers.len() implies #[trigger] f(i) is None by {
            assert(answers[i] is Ok);
        }
    }
    assert forall|i: int|
        0 <= i < answers.len() && (forall|j: int|
            0 <= j < i ==> ((#[trigger] answers[j]) matches Ok(output) && output.success)) implies {
        &&& (#[trigger] answers[i]) is Err ==> (first_some(answers.len(), f) is Some && first_some(
            answers.len(),
            f,
        )->0 is Unrun)
        &&& answers[i] is Ok && !answers[i]->Ok_0.success ==> first_some(answers.len(), f) == Some(
            CheckStop::Failed,
        )
    } by {
        crate::search::lemma_first_some_none(i as nat, f);
        assert forall|j: int| 0 <= j < i implies #[trigger] f(j) is None by {
            assert(answers[j] is Ok);
        }
        if f(i) is Some {
            assert(first_some((i + 1) as nat, f) == f(i));
            lemma_first_some_stays((i + 1) as nat, answers.len(), f);
        }
    }
}

} // verus!
