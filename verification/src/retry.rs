//! Waiting for another server's update of the database: a check, then a
//! pause, at most ten times.

use vstd::prelude::*;

verus! {

/// The number of checks before the wait gives up.
pub const MAX_ATTEMPTS: u32 = 10;

/// The pause between two checks, in milliseconds.
pub const RETRY_INTERVAL_MS: u64 = 500;

/// What follows a check.
#[derive(Debug, PartialEq, Eq, Structural)]
pub enum RetryStep {
    /// The update is there: stop waiting and use it.
    Done,
    /// Pause, then make check number `.0`.
    PauseThenCheck(u32),
    /// Pause, then give up.
    PauseThenGiveUp,
}

/// What follows check number `attempt` (counted from 1), given whether it
/// found the update.
pub fn after_check(attempt: u32, ready: bool) -> (step: RetryStep)
    requires
        1 <= attempt <= MAX_ATTEMPTS,
    ensures
        ready ==> step == RetryStep::Done,
        !ready && attempt < MAX_ATTEMPTS ==> step == RetryStep::PauseThenCheck((attempt + 1) as u32),
        !ready && attempt == MAX_ATTEMPTS ==> step == RetryStep::PauseThenGiveUp,
{
    if ready {
        RetryStep::Done
    } else if attempt < MAX_ATTEMPTS {
        RetryStep::PauseThenCheck(attempt + 1)
    } else {
        RetryStep::PauseThenGiveUp
    }
}

} // verus!
