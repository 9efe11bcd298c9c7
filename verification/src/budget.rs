//! Time budgets: deadlines, timeouts and retries. A timeout is a number of seconds;
//! a moment and the time between two moments are numbers of nanoseconds.

use vstd::prelude::*;
use vstd::string::*;

use crate::error::{PlanError, outcome};
use crate::strings::{cat3, decimal_u64};
use crate::text::decimal;

verus! {

/// The nanoseconds of a second.
pub const NANOS_PER_SEC: u128 = 1_000_000_000;

/// Seconds that a guest may take until it answers at all.
pub const TEST_SSH_READY_TIMEOUT_SECS: u64 = 300;

/// How often a command is tried when the transport fails.
pub const TEST_TRANSPORT_RETRIES: usize = 10;

/// Seconds between two such attempts.
pub const TEST_TRANSPORT_RETRY_DELAY_SECS: u64 = 2;

/// How often a guest is probed for a stable connection.
pub const TEST_STABLE_SSH_ATTEMPTS: usize = 5;

/// How many probes in a row have to succeed.
pub const TEST_STABLE_SSH_REQUIRED: usize = 2;

/// Seconds that one such probe may take.
pub const STABLE_PROBE_SECS: u64 = 10;

/// Seconds between two such probes.
pub const STABLE_PAUSE_SECS: u64 = 2;

/// Seconds that a small command in the guest may take.
pub const SMALL_COMMAND_SECS: u64 = 10;

/// Seconds that the connection for the command of a step may take.
pub const STEP_CONNECT_SECS: u64 = 300;

/// How often something in the guest is tried when the transport fails, and the seconds
/// between two attempts.
#[derive(Clone, Copy, Debug, PartialEq, Eq, Structural)]
pub struct Retries {
    pub tries: usize,
    pub delay_secs: u64,
}

/// One attempt.
pub open spec fn one_try() -> Retries {
    Retries { tries: 1, delay_secs: 0 }
}

/// As many attempts as the transport of a plan gets.
pub open spec fn transport_tries() -> Retries {
    Retries { tries: TEST_TRANSPORT_RETRIES, delay_secs: TEST_TRANSPORT_RETRY_DELAY_SECS }
}

impl Retries {
    /// One attempt.
    pub fn once() -> (r: Retries)
        ensures
            r == one_try(),
    {
        Retries { tries: 1, delay_secs: 0 }
    }

    /// As many attempts as the transport of a plan gets.
    pub fn often() -> (r: Retries)
        ensures
            r == transport_tries(),
    {
        Retries { tries: TEST_TRANSPORT_RETRIES, delay_secs: TEST_TRANSPORT_RETRY_DELAY_SECS }
    }
}

/// The seconds that a step may take: its own timeout, else the default.
pub open spec fn step_timeout_of(step: Option<u64>, default: u64) -> u64 {
    match step {
        Some(secs) => secs,
        None => default,
    }
}

/// The seconds that a step may take: its own timeout, else the default.
pub fn resolve_step_timeout(step_timeout: Option<u64>, default_step_timeout: u64) -> (r: u64)
    ensures
        r == step_timeout_of(step_timeout, default_step_timeout),
{
    match step_timeout {
        Some(secs) => secs,
        None => default_step_timeout,
    }
}

/// The length of a timeout.
pub open spec fn span(secs: u64) -> int {
    secs * NANOS_PER_SEC
}

/// The length of a timeout.
pub fn nanos(secs: u64) -> (r: u128)
    ensures
        r == span(secs),
        r <= 0xffff_ffff_ffff_ffff * 1_000_000_000,
{
    assert(secs * NANOS_PER_SEC <= 0xffff_ffff_ffff_ffff * 1_000_000_000) by (nonlinear_arith)
        requires
            secs <= 0xffff_ffff_ffff_ffff,
            NANOS_PER_SEC == 1_000_000_000,
    ;
    secs as u128 * NANOS_PER_SEC
}

/// The moment at which a timeout that starts now runs out.
pub fn deadline(now: u128, secs: u64) -> (r: u128)
    requires
        now + span(secs) <= u128::MAX,
    ensures
        r == now + span(secs),
{
    now + nanos(secs)
}

/// The message that the time for the whole run is over.
pub open spec fn overall_message(secs: u64) -> Seq<char> {
    "overall run timed out after "@ + decimal(secs as nat) + "s"@
}

/// The error that the time for the whole run is over.
pub fn overall_timeout_error(overall_timeout: u64) -> (e: PlanError)
    ensures
        e@ == overall_message(overall_timeout),
{
    let secs = decimal_u64(overall_timeout);
    PlanError::new(cat3("overall run timed out after ", secs.as_str(), "s"))
}

/// Why a run may not go on: it was interrupted, or its time is over.
pub open spec fn budget_error(
    poll: Result<(), PlanError>,
    now: u128,
    overall_deadline: u128,
    overall_timeout: u64,
) -> Option<Seq<char>> {
    match poll {
        Err(e) => Some(e@),
        Ok(()) => if now >= overall_deadline {
            Some(overall_message(overall_timeout))
        } else {
            None
        },
    }
}

/// Fails if a run was interrupted, as `poll` says, or if its time is over.
pub fn ensure_overall_budget(
    poll: &Result<(), PlanError>,
    now: u128,
    overall_deadline: u128,
    overall_timeout: u64,
) -> (r: Result<(), PlanError>)
    ensures
        outcome(r, budget_error(*poll, now, overall_deadline, overall_timeout)),
{
    if let Err(e) = poll {
        return Err(e.clone());
    }
    if now >= overall_deadline {
        return Err(overall_timeout_error(overall_timeout));
    }
    Ok(())
}

/// The time that is left until a deadline: none once it is over.
pub open spec fn time_left(overall_deadline: u128, now: u128) -> int {
    if now >= overall_deadline {
        0
    } else {
        overall_deadline - now
    }
}

/// The time that is left until a deadline: none once it is over.
pub fn remaining_budget(overall_deadline: u128, now: u128) -> (r: u128)
    ensures
        r == time_left(overall_deadline, now),
{
    if now >= overall_deadline {
        0
    } else {
        overall_deadline - now
    }
}

/// The time for one action: what is left until the deadline, but no more than a limit.
pub open spec fn allowance(overall_deadline: u128, now: u128, limit: u64) -> int {
    if time_left(overall_deadline, now) <= span(limit) {
        time_left(overall_deadline, now)
    } else {
        span(limit)
    }
}

/// The time for one action: what is left until the deadline, but no more than a limit.
pub fn capped_budget(overall_deadline: u128, now: u128, limit: u64) -> (r: u128)
    ensures
        r == allowance(overall_deadline, now, limit),
{
    let left: u128 = remaining_budget(overall_deadline, now);
    let most: u128 = nanos(limit);
    if left <= most {
        left
    } else {
        most
    }
}

/// An action never outlasts the run: what it is given ends at the deadline or before.
pub proof fn actions_end_in_time(overall_deadline: u128, now: u128, limit: u64)
    requires
        now <= overall_deadline,
    ensures
        0 <= allowance(overall_deadline, now, limit),
        now + allowance(overall_deadline, now, limit) <= overall_deadline,
{
    assert(span(limit) >= 0) by (nonlinear_arith)
        requires
            span(limit) == limit * NANOS_PER_SEC,
            limit >= 0,
            NANOS_PER_SEC >= 0,
    ;
}

// ---------------------------------------------------------------------------
// Which timeout fired
// ---------------------------------------------------------------------------

/// The timeout that ended a wait.
#[derive(Clone, Copy, Debug, PartialEq, Eq, Structural)]
pub enum WaitResult {
    StepTimeout,
    OverallTimeout,
}

/// The timeout that has run out: of two, the one that ran out first, and the step's if
/// they ran out together.
pub open spec fn cause_of(now: u128, step_deadline: u128, overall_deadline: u128) -> Option<
    WaitResult,
> {
    if step_deadline <= overall_deadline && now >= step_deadline {
        Some(WaitResult::StepTimeout)
    } else if now >= overall_deadline {
        Some(WaitResult::OverallTimeout)
    } else {
        None
    }
}

/// The timeout that has run out: of two, the one that ran out first, and the step's if
/// they ran out together.
pub fn timeout_cause(now: u128, step_deadline: u128, overall_deadline: u128) -> (r: Option<
    WaitResult,
>)
    ensures
        r == cause_of(now, step_deadline, overall_deadline),
{
    if step_deadline <= overall_deadline {
        if now >= step_deadline {
            Some(WaitResult::StepTimeout)
        } else if now >= overall_deadline {
            Some(WaitResult::OverallTimeout)
        } else {
            None
        }
    } else if now >= overall_deadline {
        Some(WaitResult::OverallTimeout)
    } else if now >= step_deadline {
        Some(WaitResult::StepTimeout)
    } else {
        None
    }
}

/// A wait ends exactly when one of the two deadlines has passed, and the deadline that
/// it blames has passed.
pub proof fn waits_end_at_the_first_deadline(now: u128, step_deadline: u128, overall_deadline: u128)
    ensures
        cause_of(now, step_deadline, overall_deadline) is Some <==> now >= step_deadline || now
            >= overall_deadline,
        cause_of(now, step_deadline, overall_deadline) == Some(WaitResult::StepTimeout) ==> now
            >= step_deadline,
        cause_of(now, step_deadline, overall_deadline) == Some(WaitResult::OverallTimeout) ==> now
            >= overall_deadline,
{
}

} // verus!
