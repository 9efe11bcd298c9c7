//! Waiting for a stable connection to a guest: what to do after each probe.

use vstd::prelude::*;
use vstd::string::*;

use crate::budget::{
    Retries, STABLE_PAUSE_SECS, STABLE_PROBE_SECS, allowance, budget_error, capped_budget,
    ensure_overall_budget, one_try, overall_message, overall_timeout_error,
};
use crate::error::{PlanError, outcome};
use crate::strings::{cat3, decimal_u64};
use crate::text::decimal;

verus! {

// ---------------------------------------------------------------------------
// A stable connection
// ---------------------------------------------------------------------------

/// How far the probing for a stable connection has come.
#[derive(Debug, PartialEq, Eq)]
pub struct StableSsh {
    /// How many probes there are at most.
    pub attempts: usize,
    /// How many probes in a row have to succeed.
    pub required: usize,
    /// How many probes were made.
    pub tried: usize,
    /// How many of the last probes succeeded in a row.
    pub consecutive: usize,
}

/// What happened since the last action.
#[derive(Debug)]
pub enum StableEvent {
    /// The pause is over, or there was none yet.
    Ready { poll: Result<(), PlanError>, now: u128 },
    /// A probe was made.
    Probed { ok: bool, now: u128 },
}

/// What to do next.
#[derive(Debug)]
pub enum StableAction {
    /// Run that command in the guest, that often and for that long at most, to see whether
    /// it succeeds.
    Probe { command: String, retries: Retries, limit: u128 },
    /// Wait that long.
    Pause { time: u128 },
    /// The probing is over.
    Done(Result<(), PlanError>),
}

impl StableSsh {
    /// Probing that has not begun.
    pub fn new(attempts: usize, required: usize) -> (r: StableSsh)
        ensures
            r.attempts == attempts,
            r.required == required,
            r.tried == 0,
            r.consecutive == 0,
            r.wf(),
    {
        StableSsh { attempts, required, tried: 0, consecutive: 0 }
    }

    /// No more probes succeeded than were made, nor more were made than may be.
    pub open spec fn wf(self) -> bool {
        self.consecutive <= self.tried <= self.attempts
    }

    /// The state after one more probe.
    pub open spec fn probed(self, ok: bool) -> StableSsh {
        StableSsh {
            tried: (self.tried + 1) as usize,
            consecutive: if ok {
                (self.consecutive + 1) as usize
            } else {
                0
            },
            ..self
        }
    }

    /// Whether the connection was found stable by a probe that ended in this state.
    pub open spec fn settled(self, ok: bool) -> bool {
        ok && self.consecutive >= self.required
    }

    /// The message that the connection was not found stable.
    pub open spec fn unstable_message(self) -> Seq<char> {
        "SSH was not stable enough after "@ + decimal(self.attempts as nat) + " probes"@
    }
}

fn unstable(state: &StableSsh) -> (e: PlanError)
    ensures
        e@ == state.unstable_message(),
{
    let n = decimal_u64(state.attempts as u64);
    PlanError::new(cat3("SSH was not stable enough after ", n.as_str(), " probes"))
}

/// Probes a guest until enough probes in a row have succeeded: takes what happened and
/// says what to do next.
pub fn require_stable_ssh_with_deadline(
    state: &mut StableSsh,
    event: StableEvent,
    overall_deadline: u128,
    overall_timeout: u64,
) -> (action: StableAction)
    requires
        old(state).wf(),
        event is Probed ==> old(state).tried < old(state).attempts,
    ensures
        final(state).wf(),
        match event {
            StableEvent::Ready { poll, now } => {
                &&& *final(state) == *old(state)
                &&& if old(state).tried == old(state).attempts {
                    &&& action matches StableAction::Done(r)
                    &&& outcome(r, Some(old(state).unstable_message()))
                } else {
                    match budget_error(poll, now, overall_deadline, overall_timeout) {
                        Some(e) => {
                            &&& action matches StableAction::Done(r)
                            &&& outcome(r, Some(e))
                        },
                        None => {
                            &&& action matches StableAction::Probe { command, retries, limit }
                            &&& command@ == "true"@
                            &&& retries == one_try()
                            &&& limit == allowance(overall_deadline, now, STABLE_PROBE_SECS)
                        },
                    }
                }
            },
            StableEvent::Probed { ok, now } => {
                &&& *final(state) == old(state).probed(ok)
                &&& if final(state).settled(ok) {
                    action matches StableAction::Done(r) && r is Ok
                } else if final(state).tried == final(state).attempts {
                    &&& action matches StableAction::Done(r)
                    &&& outcome(r, Some(old(state).unstable_message()))
                } else if allowance(overall_deadline, now, STABLE_PAUSE_SECS) == 0 {
                    &&& action matches StableAction::Done(r)
                    &&& outcome(r, Some(overall_message(overall_timeout)))
                } else {
                    &&& action matches StableAction::Pause { time }
                    &&& time == allowance(overall_deadline, now, STABLE_PAUSE_SECS)
                }
            },
        },
        (action matches StableAction::Done(r) && r is Ok) <==> {
            &&& event matches StableEvent::Probed { ok, .. }
            &&& ok
            &&& old(state).consecutive + 1 >= old(state).required
        },
        event matches StableEvent::Ready { poll, now } ==> {
            &&& action is Probe <==> poll is Ok && now < overall_deadline && old(state).tried
                < old(state).attempts
            &&& *final(state) == *old(state)
        },
        event matches StableEvent::Probed { ok, now } ==> {
            &&& final(state).tried == old(state).tried + 1
            &&& final(state).consecutive == if ok {
                old(state).consecutive + 1
            } else {
                0
            }
            &&& action is Pause <==> !(ok && old(state).consecutive + 1 >= old(state).required)
                && now < overall_deadline && old(state).tried + 1 < old(state).attempts
        },
{
    match event {
        StableEvent::Ready { poll, now } => {
            if state.tried == state.attempts {
                return StableAction::Done(Err(unstable(state)));
            }
            match ensure_overall_budget(&poll, now, overall_deadline, overall_timeout) {
                Err(e) => StableAction::Done(Err(e)),
                Ok(()) => StableAction::Probe {
                    command: "true".to_owned(),
                    retries: Retries::once(),
                    limit: capped_budget(overall_deadline, now, STABLE_PROBE_SECS),
                },
            }
        },
        StableEvent::Probed { ok, now } => {
            state.tried = state.tried + 1;
            if ok {
                state.consecutive = state.consecutive + 1;
                if state.consecutive >= state.required {
                    return StableAction::Done(Ok(()));
                }
            } else {
                state.consecutive = 0;
            }
            if state.tried == state.attempts {
                return StableAction::Done(Err(unstable(state)));
            }
            let time: u128 = capped_budget(overall_deadline, now, STABLE_PAUSE_SECS);
            if time == 0 {
                return StableAction::Done(Err(overall_timeout_error(overall_timeout)));
            }
            StableAction::Pause { time }
        },
    }
}

/// The state after a row of probes.
pub open spec fn after_probes(state: StableSsh, results: Seq<bool>) -> StableSsh
    decreases results.len(),
{
    if results.len() == 0 {
        state
    } else {
        after_probes(state, results.drop_last()).probed(results.last())
    }
}

/// Probing counts the successes at the end of the row: the connection is found stable
/// by a row of probes exactly if the last `required` of them, and at least the last
/// one, succeeded.
pub proof fn stable_after_enough_in_a_row(start: StableSsh, results: Seq<bool>)
    requires
        start.wf(),
        start.tried == 0,
        0 < results.len() <= start.attempts,
    ensures
        ({
            let end = after_probes(start, results);
            &&& end.tried == results.len()
            &&& end.settled(results.last()) <==> {
                &&& results.last()
                &&& start.required <= results.len()
                &&& forall|k: int|
                    results.len() - start.required <= k < results.len() ==> #[trigger] results[k]
            }
        }),
{
    lemma_consecutive(start, results);
    let end = after_probes(start, results);
    let n = results.len() as int;
    if end.settled(results.last()) {
        assert forall|k: int| n - start.required <= k < n implies #[trigger] results[k] by {
            assert(n - end.consecutive <= k);
        }
    } else if results.last() && start.required <= results.len() {
        assert(end.consecutive < start.required);
        assert(!results[n - 1 - end.consecutive]);
    }
}

proof fn lemma_consecutive(start: StableSsh, results: Seq<bool>)
    requires
        start.wf(),
        start.tried == 0,
        results.len() <= start.attempts,
    ensures
        ({
            let end = after_probes(start, results);
            &&& end.attempts == start.attempts
            &&& end.required == start.required
            &&& end.tried == results.len()
            &&& end.consecutive <= results.len()
            &&& forall|k: int|
                results.len() - end.consecutive <= k < results.len() ==> #[trigger] results[k]
            &&& end.consecutive < results.len() ==> !results[results.len() - 1
                - end.consecutive]
        }),
    decreases results.len(),
{
    if results.len() > 0 {
        let front = results.drop_last();
        lemma_consecutive(start, front);
        let mid = after_probes(start, front);
        let end = after_probes(start, results);
        assert(forall|k: int| 0 <= k < front.len() ==> results[k] == #[trigger] front[k]);
        if results.last() {
            assert(end.consecutive == mid.consecutive + 1);
            if mid.consecutive < front.len() {
                assert(!front[front.len() - 1 - mid.consecutive]);
            }
            assert forall|k: int|
                results.len() - end.consecutive <= k < results.len() implies #[trigger] results[k] by {
                if k < front.len() {
                    assert(front[k]);
                }
            }
        }
    }
}

} // verus!
