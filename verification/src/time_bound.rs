//! Elapsed-time budgets of operations. Instants and durations are counts of
//! nanoseconds; an instant is a reading of one monotonic clock.

use vstd::prelude::*;
use vstd::string::*;

verus! {

/// The budget that an operation ran under.
#[derive(Clone, Copy, Debug, PartialEq, Eq, Structural)]
pub enum OperationBudgetEvidence {
    Finite { configured_ms: u64 },
    Unbounded,
}

/// How an operation ended.
#[derive(Clone, Copy, Debug, PartialEq, Eq, Structural)]
pub enum OperationTerminalCause {
    Succeeded,
    Failed,
    TimedOut,
    Interrupted,
    Cancelled,
}

/// Evidence that an operation's owner emits when it accepts a terminal outcome.
#[derive(Debug)]
pub struct OperationTimingEvidence {
    pub budget: OperationBudgetEvidence,
    pub start_boundary: String,
    pub elapsed_ms: u64,
    pub terminal_cause: OperationTerminalCause,
}

/// Evidence of an operation's time, as values.
pub struct TimingView {
    pub budget: OperationBudgetEvidence,
    pub start_boundary: Seq<char>,
    pub elapsed_ms: u64,
    pub terminal_cause: OperationTerminalCause,
}

impl View for OperationTimingEvidence {
    type V = TimingView;

    open spec fn view(&self) -> TimingView {
        TimingView {
            budget: self.budget,
            start_boundary: self.start_boundary@,
            elapsed_ms: self.elapsed_ms,
            terminal_cause: self.terminal_cause,
        }
    }
}

/// The start of an operation, and its budget where it has one.
#[derive(Clone, Copy, Debug, PartialEq, Eq, Structural)]
pub enum BoundKind {
    Finite { started_at: u128, budget: u128 },
    Unbounded { started_at: u128 },
}

/// One elapsed-time authority for an operation. The finite form retains only its
/// start and total budget: users observe the remaining interval or derive a
/// capped attempt, and cannot restart the clock.
#[derive(Clone, Copy, Debug, PartialEq, Eq, Structural)]
pub struct OperationBound {
    pub kind: BoundKind,
}

/// One attempt of an owning operation, from the instant at which it begins. Its
/// cap and the owner's remaining time share one clock.
#[derive(Clone, Copy, Debug, PartialEq, Eq, Structural)]
pub struct AttemptBound {
    pub kind: BoundKind,
}

/// What is left of a bound.
#[derive(Clone, Copy, Debug, PartialEq, Eq, Structural)]
pub enum Remaining {
    Finite(u128),
    Expired,
    Unbounded,
}

/// The time from one instant to a later one; none where it is not later.
pub open spec fn since(now: u128, earlier: u128) -> u128 {
    if now >= earlier {
        (now - earlier) as u128
    } else {
        0
    }
}

/// The time from one instant to a later one; none where it is not later.
pub fn saturating_since(now: u128, earlier: u128) -> (r: u128)
    ensures
        r == since(now, earlier),
{
    if now >= earlier {
        now - earlier
    } else {
        0
    }
}

/// Whole milliseconds, at most what fits.
pub open spec fn millis(duration: u128) -> u64 {
    if duration / 1_000_000 <= u64::MAX {
        (duration / 1_000_000) as u64
    } else {
        u64::MAX
    }
}

/// Whole milliseconds, at most what fits.
pub fn duration_ms(duration: u128) -> (r: u64)
    ensures
        r == millis(duration),
{
    let whole: u128 = duration / 1_000_000;
    if whole <= u64::MAX as u128 {
        whole as u64
    } else {
        u64::MAX
    }
}

impl BoundKind {
    /// When it began.
    pub open spec fn start(self) -> u128 {
        match self {
            BoundKind::Finite { started_at, .. } => started_at,
            BoundKind::Unbounded { started_at } => started_at,
        }
    }

    /// What is left of it at an instant.
    pub open spec fn left_at(self, now: u128) -> Remaining {
        match self {
            BoundKind::Finite { started_at, budget } => if since(now, started_at) >= budget {
                Remaining::Expired
            } else {
                Remaining::Finite((budget - since(now, started_at)) as u128)
            },
            BoundKind::Unbounded { .. } => Remaining::Unbounded,
        }
    }
}

/// What is left of a bound at an instant.
pub fn remaining_at(kind: &BoundKind, now: u128) -> (r: Remaining)
    ensures
        r == kind.left_at(now),
{
    match *kind {
        BoundKind::Finite { started_at, budget } => {
            let elapsed: u128 = saturating_since(now, started_at);
            if elapsed >= budget {
                Remaining::Expired
            } else {
                Remaining::Finite(budget - elapsed)
            }
        },
        BoundKind::Unbounded { .. } => Remaining::Unbounded,
    }
}

/// The shorter of two durations.
pub open spec fn shorter(a: u128, b: u128) -> u128 {
    if a <= b {
        a
    } else {
        b
    }
}

/// The shorter of two durations.
pub fn min_duration(a: u128, b: u128) -> (r: u128)
    ensures
        r == shorter(a, b),
{
    if a <= b {
        a
    } else {
        b
    }
}

impl OperationBound {
    /// The bound of an attempt that begins at an instant.
    pub open spec fn attempt_kind(self, now: u128, cap: Option<u128>) -> BoundKind {
        match (self.kind.left_at(now), cap) {
            (Remaining::Finite(left), Some(cap)) => BoundKind::Finite {
                started_at: now,
                budget: shorter(left, cap),
            },
            (Remaining::Finite(left), None) => BoundKind::Finite { started_at: now, budget: left },
            (Remaining::Unbounded, Some(cap)) => BoundKind::Finite { started_at: now, budget: cap },
            (Remaining::Unbounded, None) => BoundKind::Unbounded { started_at: now },
            (Remaining::Expired, _) => BoundKind::Finite { started_at: now, budget: 0 },
        }
    }

    /// How long the operation ran, as its evidence counts it: an operation that
    /// timed out ran no longer than its budget.
    pub open spec fn accounted(self, now: u128, cause: OperationTerminalCause) -> u128 {
        let elapsed = since(now, self.kind.start());
        match self.kind {
            BoundKind::Finite { budget, .. } => if cause is TimedOut {
                shorter(elapsed, budget)
            } else {
                elapsed
            },
            BoundKind::Unbounded { .. } => elapsed,
        }
    }

    /// The evidence of the operation that ended at an instant.
    pub open spec fn timing_at(
        self,
        now: u128,
        start_boundary: Seq<char>,
        cause: OperationTerminalCause,
    ) -> TimingView {
        TimingView {
            budget: match self.kind {
                BoundKind::Finite { budget, .. } => OperationBudgetEvidence::Finite {
                    configured_ms: millis(budget),
                },
                BoundKind::Unbounded { .. } => OperationBudgetEvidence::Unbounded,
            },
            start_boundary,
            elapsed_ms: millis(self.accounted(now, cause)),
            terminal_cause: cause,
        }
    }

    /// An operation with a budget, from its start.
    pub fn finite_at(started_at: u128, budget: u128) -> (r: Self)
        ensures
            r.kind == (BoundKind::Finite { started_at, budget }),
    {
        OperationBound { kind: BoundKind::Finite { started_at, budget } }
    }

    /// An operation without a budget, from its start.
    pub fn unbounded(started_at: u128) -> (r: Self)
        ensures
            r.kind == (BoundKind::Unbounded { started_at }),
    {
        OperationBound { kind: BoundKind::Unbounded { started_at } }
    }

    /// What is left at an instant.
    pub fn remaining_at(&self, now: u128) -> (r: Remaining)
        ensures
            r == self.kind.left_at(now),
    {
        remaining_at(&self.kind, now)
    }

    /// An attempt that begins at an instant.
    pub fn attempt_at(&self, now: u128, cap: Option<u128>) -> (r: AttemptBound)
        ensures
            r.kind == self.attempt_kind(now, cap),
    {
        let kind = match (self.remaining_at(now), cap) {
            (Remaining::Finite(left), Some(cap)) => BoundKind::Finite {
                started_at: now,
                budget: min_duration(left, cap),
            },
            (Remaining::Finite(left), None) => BoundKind::Finite { started_at: now, budget: left },
            (Remaining::Unbounded, Some(cap)) => BoundKind::Finite { started_at: now, budget: cap },
            (Remaining::Unbounded, None) => BoundKind::Unbounded { started_at: now },
            (Remaining::Expired, _) => BoundKind::Finite { started_at: now, budget: 0 },
        };
        AttemptBound { kind }
    }

    /// Whether the budget is used up at an instant.
    pub fn is_expired(&self, now: u128) -> (r: bool)
        ensures
            r == (self.kind.left_at(now) is Expired),
    {
        match self.remaining_at(now) {
            Remaining::Expired => true,
            _ => false,
        }
    }

    /// The milliseconds since the start.
    pub fn elapsed_ms(&self, now: u128) -> (r: u64)
        ensures
            r == millis(since(now, self.kind.start())),
    {
        let started_at: u128 = match self.kind {
            BoundKind::Finite { started_at, .. } => started_at,
            BoundKind::Unbounded { started_at } => started_at,
        };
        duration_ms(saturating_since(now, started_at))
    }

    /// The evidence of the operation that ended at an instant.
    pub fn timing(&self, now: u128, start_boundary: &str, terminal_cause: OperationTerminalCause) -> (r:
        OperationTimingEvidence)
        ensures
            r@ == self.timing_at(now, start_boundary@, terminal_cause),
    {
        let (budget, elapsed): (OperationBudgetEvidence, u128) = match self.kind {
            BoundKind::Finite { started_at, budget } => {
                let elapsed: u128 = saturating_since(now, started_at);
                let counted: u128 = if terminal_cause == OperationTerminalCause::TimedOut {
                    min_duration(elapsed, budget)
                } else {
                    elapsed
                };
                (OperationBudgetEvidence::Finite { configured_ms: duration_ms(budget) }, counted)
            },
            BoundKind::Unbounded { started_at } => (
                OperationBudgetEvidence::Unbounded,
                saturating_since(now, started_at),
            ),
        };
        OperationTimingEvidence {
            budget,
            start_boundary: start_boundary.to_owned(),
            elapsed_ms: duration_ms(elapsed),
            terminal_cause,
        }
    }
}

impl AttemptBound {
    /// The milliseconds that the attempt was given, where they are limited.
    pub fn configured_ms(&self) -> (r: Option<u64>)
        ensures
            r == match self.kind {
                BoundKind::Finite { budget, .. } => Some(millis(budget)),
                BoundKind::Unbounded { .. } => None,
            },
    {
        match self.kind {
            BoundKind::Finite { budget, .. } => Some(duration_ms(budget)),
            BoundKind::Unbounded { .. } => None,
        }
    }

    /// What is left at an instant.
    pub fn remaining_at(&self, now: u128) -> (r: Remaining)
        ensures
            r == self.kind.left_at(now),
    {
        remaining_at(&self.kind, now)
    }
}

// ---------------------------------------------------------------------------
// Laws

/// No attempt outlives its owner: where the owner's budget is used up, so is the
/// budget of every attempt that it gave.
pub proof fn law_attempt_ends_with_its_owner(
    owner: OperationBound,
    begun: u128,
    cap: Option<u128>,
    now: u128,
)
    requires
        owner.kind.start() <= begun <= now,
        owner.kind.left_at(now) is Expired,
    ensures
        owner.attempt_kind(begun, cap).left_at(now) is Expired,
{
}

/// An attempt never has more time than its owner or than its cap.
pub proof fn law_attempt_is_within_owner_and_cap(
    owner: OperationBound,
    begun: u128,
    cap: Option<u128>,
    now: u128,
    left: u128,
)
    requires
        owner.kind.start() <= begun <= now,
        owner.attempt_kind(begun, cap).left_at(now) == Remaining::Finite(left),
    ensures
        owner.kind.left_at(now) matches Remaining::Finite(whole) ==> left <= whole,
        !(owner.kind.left_at(now) is Expired),
        cap matches Some(most) ==> left <= most,
{
}

/// A cap on an attempt takes nothing from the owner beyond the time that passes.
pub proof fn law_owner_keeps_its_clock(owner: OperationBound, now: u128, later: u128)
    requires
        owner.kind.start() <= now <= later,
        owner.kind.left_at(now) is Finite,
    ensures
        owner.kind.left_at(later) == if later - now >= owner.kind.left_at(now)->Finite_0 {
            Remaining::Expired
        } else {
            Remaining::Finite((owner.kind.left_at(now)->Finite_0 - (later - now)) as u128)
        },
{
}

/// What is expired stays expired.
pub proof fn law_expiry_is_final(kind: BoundKind, now: u128, later: u128)
    requires
        now <= later,
        kind.left_at(now) is Expired,
    ensures
        kind.left_at(later) is Expired,
{
}

/// The evidence of a timeout never shows more than the budget.
pub proof fn law_timeout_is_accounted_within_budget(bound: OperationBound, now: u128)
    ensures
        bound.kind matches BoundKind::Finite { budget, .. } ==> millis(
            bound.accounted(now, OperationTerminalCause::TimedOut),
        ) <= millis(budget),
{
    if let BoundKind::Finite { started_at, budget } = bound.kind {
        let counted = bound.accounted(now, OperationTerminalCause::TimedOut);
        assert(counted <= budget);
        assert(counted / 1_000_000 <= budget / 1_000_000) by (nonlinear_arith)
            requires
                counted <= budget,
        ;
    }
}

/// A budget lasts as long as it is: before it has passed the rest of it is left, and
/// from then on it is used up.
pub proof fn law_budget_lasts_as_long_as_it_is(started_at: u128, budget: u128, passed: u128)
    requires
        started_at + passed <= u128::MAX,
    ensures
        ({
            let left = (BoundKind::Finite { started_at, budget }).left_at(
                (started_at + passed) as u128,
            );
            &&& passed < budget ==> left == Remaining::Finite((budget - passed) as u128)
            &&& passed >= budget ==> left is Expired
        }),
{
}

/// An attempt has all the time that its owner has left, or its cap where that is less;
/// without an end on either it has none.
pub proof fn law_attempt_has_what_owner_and_cap_allow(
    owner: OperationBound,
    begun: u128,
    cap: Option<u128>,
)
    ensures
        ({
            let given = owner.attempt_kind(begun, cap).left_at(begun);
            match (owner.kind.left_at(begun), cap) {
                (Remaining::Finite(left), None) => given == Remaining::Finite(left),
                (Remaining::Finite(left), Some(most)) => most > 0 ==> (given matches Remaining::Finite(
                    got,
                ) && (got == left || got == most) && got <= left && got <= most),
                (Remaining::Unbounded, None) => given is Unbounded,
                (Remaining::Unbounded, Some(most)) => most > 0 ==> given == Remaining::Finite(most),
                (Remaining::Expired, _) => given is Expired,
            }
        }),
        owner.attempt_kind(begun, cap).start() == begun,
{
}

/// The evidence of an operation that did not time out shows the whole milliseconds from
/// its start to its end, its budget and why it ended.
pub proof fn law_evidence_shows_the_time_that_passed(
    bound: OperationBound,
    passed: u128,
    boundary: Seq<char>,
    cause: OperationTerminalCause,
)
    requires
        bound.kind.start() + passed <= u128::MAX,
        passed <= 0xffff_ffff_ffff_ffff,
        !(cause is TimedOut),
    ensures
        ({
            let told = bound.timing_at((bound.kind.start() + passed) as u128, boundary, cause);
            &&& told.elapsed_ms * 1_000_000 <= passed < (told.elapsed_ms + 1) * 1_000_000
            &&& told.terminal_cause == cause
            &&& told.start_boundary == boundary
            &&& bound.kind is Unbounded <==> told.budget is Unbounded
            &&& (bound.kind matches BoundKind::Finite { budget, .. } ==> (budget
                <= 0xffff_ffff_ffff_ffff ==> told.budget == (OperationBudgetEvidence::Finite {
                configured_ms: (budget / 1_000_000) as u64,
            })))
        }),
{
}

} // verus!
