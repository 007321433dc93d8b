//! The readiness poller: after the client has reported a download, the
//! staging directory is looked for up to ten times, with a pause before each
//! look that grows by a quarter of a second.

use vstd::prelude::*;

verus! {

/// How many times the staging directory is looked for at most.
pub const MAX_CHECKS: u8 = 10;

/// By how many milliseconds the pause grows from one check to the next.
pub const DELAY_STEP_MILLIS: u64 = 250;

/// The pause before the check with index `check`, in milliseconds.
pub open spec fn delay_before(check: nat) -> nat {
    check * DELAY_STEP_MILLIS as nat
}

/// All pauses before the first `checks` checks together, in milliseconds.
pub open spec fn total_delay(checks: nat) -> nat
    decreases checks,
{
    if checks == 0 {
        0
    } else {
        total_delay((checks - 1) as nat) + delay_before((checks - 1) as nat)
    }
}

/// What follows a check.
#[derive(Clone, Copy, Debug, PartialEq, Eq, Structural)]
pub enum PollStep {
    /// The waiting is over: the directory is there, or it was looked for
    /// often enough.
    Proceed,
    /// The check with this index comes next.
    Again(u8),
}

/// What follows the check with index `check`, which found the directory
/// present or not.
pub open spec fn poll_step(check: u8, present: bool) -> PollStep {
    if present || check + 1 >= MAX_CHECKS {
        PollStep::Proceed
    } else {
        PollStep::Again((check + 1) as u8)
    }
}

/// How many checks are made from the check with index `check` on, where
/// `seen(i)` tells what the check with index `i` finds.
pub open spec fn checks_made(seen: spec_fn(nat) -> bool, check: nat) -> nat
    decreases MAX_CHECKS - check,
{
    if check >= MAX_CHECKS {
        0
    } else {
        match poll_step(check as u8, seen(check)) {
            PollStep::Proceed => 1,
            PollStep::Again(next) => 1 + checks_made(seen, next as nat),
        }
    }
}

/// The pause before the check with index `check`, in milliseconds.
pub fn delay_millis(check: u8) -> (r: u64)
    ensures
        r == delay_before(check as nat),
{
    check as u64 * DELAY_STEP_MILLIS
}

/// Decides what follows the check with index `check`.
pub fn after_check(check: u8, present: bool) -> (r: PollStep)
    ensures
        r == poll_step(check, present),
{
    if present || check >= MAX_CHECKS - 1 {
        PollStep::Proceed
    } else {
        PollStep::Again(check + 1)
    }
}

/// From any check on, the poller stops with the first check that finds the
/// directory, and with the last check at the latest.
proof fn lemma_checks_from(seen: spec_fn(nat) -> bool, check: nat)
    requires
        check < MAX_CHECKS,
    ensures
        ({
            let n = checks_made(seen, check);
            &&& 1 <= n <= MAX_CHECKS - check
            &&& forall|i: nat| check <= i < check + n - 1 ==> !#[trigger] seen(i)
            &&& check + n < MAX_CHECKS ==> seen((check + n - 1) as nat)
        }),
    decreases MAX_CHECKS - check,
{
    if !seen(check) && check + 1 < MAX_CHECKS {
        lemma_checks_from(seen, check + 1);
    }
}

/// The poller makes at least one and at most ten checks. It stops with the
/// first check that finds the directory: no check before the last one made
/// found it, and unless all ten were made the last one did. The pauses add
/// up to 11250 milliseconds when all ten checks are made, and to less
/// otherwise.
pub proof fn lemma_poller_is_bounded(seen: spec_fn(nat) -> bool)
    ensures
        ({
            let n = checks_made(seen, 0);
            &&& 1 <= n <= MAX_CHECKS
            &&& forall|i: nat| i < n - 1 ==> !#[trigger] seen(i)
            &&& n < MAX_CHECKS ==> seen((n - 1) as nat)
            &&& total_delay(n) <= total_delay(MAX_CHECKS as nat) == 11250
        }),
{
    lemma_checks_from(seen, 0);
    reveal_with_fuel(total_delay, 11);
}

} // verus!
