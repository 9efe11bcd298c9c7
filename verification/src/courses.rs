//! How the machines of a run take their course: what they never skip, and when they end.

use vstd::prelude::*;
use vstd::string::*;

use crate::asserts::{
    AssertAction, AssertPhase, AssertStage, AssertVerb, all_verbs, assert_acts, held_verbs,
};
use crate::budget::{actions_end_in_time, allowance, budget_error, span, step_timeout_of};
use crate::cloud_init::{key_views, merge_by_key, merged_keys_are_those_of_both};
use crate::document::AssertBlock;
use crate::error::PlanError;
use crate::flow::NoteView;
use crate::handover::texts_depend_on_earlier_steps;
use crate::host::{
    HostAction, HostEvent, HostLook, HostPhase, HostState, HostStep, StepExecutionBudget,
    host_acts, host_next,
};
use crate::includes::merged_config;
use crate::local::{LocalAction, LocalMode, LocalSteps, local_moves};
use crate::logging::{StepOutputStream, complete_lines, lines_do_not_depend_on_chunks};
use crate::pairs::pairs;
use crate::paths::joined_path;
use crate::phases::{
    Phase, PhaseAction, PhaseEvent, PhaseRun, StepFlowPlan, next_phase, phase_acts,
    phase_in_plan, phase_rank,
};
use crate::reference::stays_below;
use crate::remote::{
    SshAction, SshEvent, SshExecOutcome, SshLimits, SshPhase, SshState, ssh_acts, ssh_logs,
    ssh_next,
};
use crate::scope::resolved_text;
use crate::sections::uses_path;
use crate::shutdown::{
    BUILD_POWEROFF_TIMEOUT_SECS, Shutdown, ShutdownAction, ShutdownEvent, ShutdownNote,
    ShutdownPhase, ShutdownVerdict, VmState, shutdown_awaits,
};
use crate::step::{StepCondition, TestStep};
use crate::streams::{
    StreamAction, StreamEvent, StreamPhase, StreamState, new_lines, stream_acts, stream_awaits,
    stream_next,
};
use crate::text::{ends_with, find, lemma_find_from, occurs_at, starts_with, texts};
use crate::value::{EntryView, NodeView, get};

verus! {

// ---------------------------------------------------------------------------
// Time
// ---------------------------------------------------------------------------

/// A run may go on exactly if it was not interrupted and its deadline is still to come. An
/// interruption is told before a deadline.
pub proof fn runs_go_on_in_time(
    poll: Result<(), PlanError>,
    now: u128,
    overall_deadline: u128,
    overall_timeout: u64,
)
    ensures
        budget_error(poll, now, overall_deadline, overall_timeout) is None <==> poll is Ok && now
            < overall_deadline,
        poll matches Err(e) ==> budget_error(poll, now, overall_deadline, overall_timeout) == Some(
            e@,
        ),
{
}

/// An action is given all the time that it may have: its limit, or what is left of the run if
/// that is less.
pub proof fn actions_get_their_time(overall_deadline: u128, now: u128, limit: u64)
    ensures
        allowance(overall_deadline, now, limit) <= span(limit),
        now >= overall_deadline ==> allowance(overall_deadline, now, limit) == 0,
        now < overall_deadline && overall_deadline - now >= limit * 1_000_000_000 ==> allowance(
            overall_deadline,
            now,
            limit,
        ) == limit * 1_000_000_000,
        now < overall_deadline && overall_deadline - now < limit * 1_000_000_000 ==> allowance(
            overall_deadline,
            now,
            limit,
        ) == overall_deadline - now,
{
    assert(span(limit) == limit * 1_000_000_000);
}

/// A step has the time that it asks for, and else that of its plan.
pub proof fn steps_have_their_own_time(step: Option<u64>, default: u64)
    ensures
        step matches Some(secs) ==> step_timeout_of(step, default) == secs,
        step is None ==> step_timeout_of(step, default) == default,
{
}

// ---------------------------------------------------------------------------
// Phases
// ---------------------------------------------------------------------------

/// No phase is left out: between a phase and the one that follows it there is at most the placing
/// of files where there are none, and the checking of assertions where there are none. Every disc
/// is mounted and then its script runs.
pub proof fn no_phase_is_left_out(plan: StepFlowPlan, phase: Phase, other: Phase)
    requires
        phase_in_plan(plan, phase),
        phase_in_plan(plan, other),
        phase != Phase::Finished,
        phase_rank(plan, phase) < phase_rank(plan, other) < phase_rank(
            plan,
            next_phase(plan, phase),
        ),
    ensures
        other == Phase::Files && !plan.files || other == Phase::Asserts && !plan.asserts,
{
    assert(plan.bootstraps@.len() == plan.bootstraps.len());
}

/// A phase that fails ends the run with its error. One that goes well is followed by the next
/// one, unless that needs time and the run was interrupted or its time is over.
pub proof fn phases_end_runs(run: PhaseRun, event: PhaseEvent)
    requires
        run.wf(),
        run.phase != Phase::Start,
    ensures
        event.last is Err ==> run.ending(event) is Some,
        event.last is Ok && event.poll is Ok && event.now < run.overall_deadline ==> run.ending(
            event,
        ) is None,
        event.last is Ok && (next_phase(run.plan, run.phase) is Ssh || next_phase(
            run.plan,
            run.phase,
        ) is CloudInit || next_phase(run.plan, run.phase) is Mount || next_phase(
            run.plan,
            run.phase,
        ) is Files) && (event.poll is Err || event.now >= run.overall_deadline) ==> run.ending(
            event,
        ) is Some,
{
}

/// What a phase does is done within the time that is left, and each phase does its own work.
pub proof fn phases_do_their_work_in_time(run: PhaseRun, now: u128, action: PhaseAction)
    requires
        run.wf(),
        now <= run.overall_deadline,
        phase_acts(run, now, action),
    ensures
        action matches PhaseAction::WaitForSsh { limit } ==> now + limit <= run.overall_deadline
            && limit <= span(300),
        action matches PhaseAction::RunInGuest { limit, .. } ==> now + limit
            <= run.overall_deadline && limit <= span(run.plan.timeouts.cloud_init_timeout),
        action is RunSteps <==> run.phase == Phase::Steps,
        action is RunAsserts <==> run.phase == Phase::Asserts,
        action is StageFiles <==> run.phase == Phase::Files,
        action is WaitForStableSsh <==> run.phase == Phase::StableSsh,
        action is WaitForSsh <==> run.phase == Phase::Ssh,
        action matches PhaseAction::Done(r) ==> (r is Ok <==> run.failure is None),
{
    actions_end_in_time(run.overall_deadline, now, run.plan.timeouts.cloud_init_timeout);
    actions_end_in_time(run.overall_deadline, now, 300);
    actions_get_their_time(run.overall_deadline, now, run.plan.timeouts.cloud_init_timeout);
    actions_get_their_time(run.overall_deadline, now, 300);
}

// ---------------------------------------------------------------------------
// Assertions
// ---------------------------------------------------------------------------

/// The kinds of assertion that are checked are those of which there is an assertion.
pub proof fn kinds_are_checked_if_asserted(block: AssertBlock, verb: AssertVerb)
    ensures
        held_verbs(block, 5).contains(verb) <==> match verb {
            AssertVerb::Files => block.files@.len() > 0,
            AssertVerb::Users => block.users@.len() > 0,
            AssertVerb::Groups => block.groups@.len() > 0,
            AssertVerb::Packages => block.packages@.len() > 0,
            AssertVerb::Services => block.services@.len() > 0,
        },
        all_verbs().len() == 5,
{
    lemma_held(block, 5, verb);
    let all = all_verbs();
    assert(all[0] == AssertVerb::Files && all[1] == AssertVerb::Users && all[2]
        == AssertVerb::Groups && all[3] == AssertVerb::Packages && all[4]
        == AssertVerb::Services);
    assert(all.take(5) =~= all);
    assert(all.contains(verb));
}

proof fn lemma_held(block: AssertBlock, n: nat, verb: AssertVerb)
    requires
        n <= all_verbs().len(),
    ensures
        held_verbs(block, n).contains(verb) <==> all_verbs().take(n as int).contains(verb)
            && verb.count_in(block) > 0,
    decreases n,
{
    let all = all_verbs();
    let front = all.take(n as int);
    if n > 0 {
        lemma_held(block, (n - 1) as nat, verb);
        let before = all.take(n - 1);
        let held = held_verbs(block, n);
        let had = held_verbs(block, (n - 1) as nat);
        assert(front =~= before.push(all[n - 1]));
        if before.contains(verb) {
            let k = choose|k: int| 0 <= k < before.len() && before[k] == verb;
            assert(front[k] == verb);
        }
        if front.contains(verb) {
            let k = choose|k: int| 0 <= k < front.len() && front[k] == verb;
            if k < n - 1 {
                assert(before[k] == verb);
            }
        }
        if all[n - 1] == verb {
            assert(front[n - 1] == verb);
        }
        if held.contains(verb) {
            let k = choose|k: int| 0 <= k < held.len() && held[k] == verb;
            if k < had.len() {
                assert(had[k] == verb);
            }
        }
        if had.contains(verb) {
            let k = choose|k: int| 0 <= k < had.len() && had[k] == verb;
            assert(held[k] == verb);
        }
        if all[n - 1] == verb && verb.count_in(block) > 0 {
            assert(held[had.len() as int] == verb);
        }
    }
    if n == all.len() {
        assert(front =~= all);
    }
}

/// Assertions are checked one after another, and none is skipped: those that are built in first,
/// then those of plugins, each of which is written out, probed, judged and reported. A failure
/// ends the checking; without one it ends only behind the last assertion.
pub proof fn no_assertion_is_skipped(state: AssertPhase, last: Result<(), PlanError>)
    requires
        state.wf(),
    ensures
        last is Err ==> state.ending(last) is Some,
        last is Ok && state.ending(last) is None ==> match state.next_stage() {
            AssertStage::Start => false,
            AssertStage::Builtin(i) => if i == 0 {
                state.stage == AssertStage::Start
            } else {
                state.stage == AssertStage::Builtin((i - 1) as usize)
            },
            AssertStage::Serialize(i) => state.provides(i as int) && if i == 0 {
                ||| state.stage == AssertStage::Start && state.verbs@.len() == 0
                ||| state.stage matches AssertStage::Builtin(k) && k + 1 == state.verbs@.len()
            } else {
                state.stage == AssertStage::Checks((i - 1) as usize)
            },
            AssertStage::BuildProbe(i) => state.stage == AssertStage::Serialize(i),
            AssertStage::Probe(i) => state.stage == AssertStage::BuildProbe(i),
            AssertStage::Evaluate(i) => state.stage == AssertStage::Probe(i),
            AssertStage::Checks(i) => state.stage == AssertStage::Evaluate(i),
            AssertStage::Finished => match state.stage {
                AssertStage::Start => state.verbs@.len() == 0 && state.plugins@.len() == 0,
                AssertStage::Builtin(i) => i + 1 == state.verbs@.len() && state.plugins@.len()
                    == 0,
                AssertStage::Checks(i) => i + 1 == state.plugins@.len(),
                AssertStage::Finished => true,
                _ => false,
            },
        },
{
    assert(state.verbs@.len() == state.verbs.len() && state.plugins@.len()
        == state.plugins.len());
}

// ---------------------------------------------------------------------------
// The machine of a build
// ---------------------------------------------------------------------------

/// A machine that runs is left alone while it has time: it is looked at again after a pause. It
/// has two minutes from when it was asked to stop.
pub proof fn machines_get_their_time(state: Shutdown, event: ShutdownEvent, action: ShutdownAction)
    requires
        state.wf(),
        shutdown_awaits(state.phase, event),
        state.does(event, action),
    ensures
        state.phase == ShutdownPhase::Watching && (event matches ShutdownEvent::Look {
            interrupted,
            now,
            vm,
        } && !interrupted && vm is Running && now < state.overall_deadline && now
            < state.poweroff_deadline) ==> state.next(event) == state && (
        action matches ShutdownAction::LookAtVm { pause } && pause > 0),
        state.phase == ShutdownPhase::Arming && state.vm && (event->Clock_now + span(120)
            <= u128::MAX) ==> state.next(event).poweroff_deadline == event->Clock_now + span(120)
            && state.next(event).phase == ShutdownPhase::Watching,
        state.phase == ShutdownPhase::Start && (event matches ShutdownEvent::Clock {
            interrupted,
            now,
        } && !interrupted && now < state.overall_deadline) ==> (action is RunInGuest
            <==> state.request_poweroff),
{
}

/// A machine that has to be stopped by force is killed: when the run is interrupted, when a time
/// is over while it runs, and when it cannot be looked at.
pub proof fn machines_are_killed_when_they_must(
    state: Shutdown,
    event: ShutdownEvent,
    action: ShutdownAction,
)
    requires
        state.wf(),
        shutdown_awaits(state.phase, event),
        state.does(event, action),
        state.vm,
    ensures
        state.phase == ShutdownPhase::Start && (event matches ShutdownEvent::Clock {
            interrupted,
            now,
        } && (interrupted || now >= state.overall_deadline)) ==> action is Kill,
        state.phase == ShutdownPhase::Watching && (event matches ShutdownEvent::Look {
            interrupted,
            now,
            vm,
        } && (interrupted || vm is Unknown || vm is Running && (now >= state.overall_deadline
            || now >= state.poweroff_deadline))) ==> action is Kill,
        action is Kill ==> state.next(event).verdict != ShutdownVerdict::Clean,
        event matches ShutdownEvent::Look { interrupted: true, .. } ==> state.next(event).verdict
            == ShutdownVerdict::Interrupted,
        event matches ShutdownEvent::Look { interrupted: false, now, vm: VmState::Running }
            ==> now >= state.overall_deadline ==> state.next(event).verdict
            == ShutdownVerdict::OverTime,
{
}

/// A disk is set aside unless its machine stopped cleanly: an older one is removed, then it is
/// renamed, and only then the stopping ends, with an error.
pub proof fn disks_are_set_aside(state: Shutdown, event: ShutdownEvent, action: ShutdownAction)
    requires
        state.wf(),
        shutdown_awaits(state.phase, event),
        state.does(event, action),
    ensures
        state.next(event).phase == ShutdownPhase::Finished && state.next(event).verdict
            != ShutdownVerdict::Clean ==> {
            &&& state.phase == ShutdownPhase::Renaming || state.phase == ShutdownPhase::Removing && (
            event matches ShutdownEvent::Ended(Err(_)))
            &&& action matches ShutdownAction::Done(r) && r is Err
        },
        action matches ShutdownAction::Rename { from, to } ==> from@ == state.partial@ && to@
            == state.failed_partial@ && (state.phase == ShutdownPhase::Looking && (
        event matches ShutdownEvent::Found(there) && !there) || state.phase
            == ShutdownPhase::Removing),
        action matches ShutdownAction::Remove { path } ==> path@ == state.failed_partial@ && (
        event matches ShutdownEvent::Found(there) && there),
        state.phase == ShutdownPhase::Killing ==> action is LookFor,
        state.phase == ShutdownPhase::Looking && (event matches ShutdownEvent::Found(there)
            && there) ==> action is Remove,
        state.phase == ShutdownPhase::Looking && (event matches ShutdownEvent::Found(there)
            && !there) ==> action is Rename,
        state.phase == ShutdownPhase::Removing && (event matches ShutdownEvent::Ended(r) && r
            is Ok) ==> action is Rename,
        state.next(event).verdict == ShutdownVerdict::Clean ==> action is Done,
{
}

// ---------------------------------------------------------------------------
// Steps on the host alone
// ---------------------------------------------------------------------------

/// Steps that prepare a publication: one runs if its condition was not decided against it, is
/// skipped if it was, and is refused if it is no script. The work ends well only behind the last
/// step.
pub proof fn local_steps_take_their_turns(
    pre: LocalSteps,
    last: Result<(), PlanError>,
    post: LocalSteps,
    notes: Seq<NoteView>,
    action: LocalAction,
)
    requires
        pre.wf(),
        local_moves(pre, last, post, notes, action),
    ensures
        action is Run ==> post.mode == LocalMode::Running && (
        pre.current() matches TestStep::Run(run) && run.condition != StepCondition::Resolved(
            false,
        )),
        pre.mode == LocalMode::Ready && pre.index < pre.steps@.len() ==> match pre.current() {
            TestStep::Run(run) => if run.condition == StepCondition::Resolved(false) {
                post.index == pre.index + 1 && notes.len() == 1 && notes[0] is Skipped && action
                    is Proceed
            } else {
                notes.len() > 0 && notes[0] is Title && (action is Run || (
                action matches LocalAction::Done(r) && r is Err))
            },
            _ => action matches LocalAction::Done(r) && r is Err,
        },
        action matches LocalAction::Done(r) ==> (r is Ok ==> pre.index == pre.steps@.len()),
        pre.mode == LocalMode::Ready && pre.index == pre.steps@.len() ==> (
        action matches LocalAction::Done(r) && r is Ok),
        pre.mode == LocalMode::Running && last is Ok ==> post.index == pre.index + 1 && (
        notes[0] matches NoteView::Status { ok, .. } && ok),
        pre.mode == LocalMode::Running ==> (last matches Err(e) ==> (
        action matches LocalAction::Done(Err(f)) && f@ == e@)),
        post.steps == pre.steps && post.env == pre.env,
{
}

/// What such a step runs is settled by the steps before it.
pub proof fn local_scripts_depend_on_what_came_before(
    pre: LocalSteps,
    other: LocalSteps,
    text: Seq<char>,
)
    requires
        pre.index < pre.steps@.len(),
        other.index == pre.index,
        other.index < other.steps@.len(),
        pre.steps@.take(pre.index + 1) == other.steps@.take(pre.index + 1),
    ensures
        resolved_text(pre.scope(), text) is Ok && resolved_text(other.scope(), text) is Ok
            ==> resolved_text(pre.scope(), text) == resolved_text(other.scope(), text),
{
    let i = pre.index as int;
    let a = pre.steps@.take(i + 1);
    let b = other.steps@.take(i + 1);
    assert(a[i] == pre.steps@[i] && b[i] == other.steps@[i]);
    assert(pre.steps@.take(i) =~= a.take(i));
    assert(other.steps@.take(i) =~= b.take(i));
    texts_depend_on_earlier_steps(pre.scope(), other.scope(), text);
}

// ---------------------------------------------------------------------------
// Fragments that are taken in
// ---------------------------------------------------------------------------

/// The cloud-config of a fragment is laid over that of the document that uses it: keys of both
/// are there, and of a scalar that both have the fragment's counts.
pub proof fn fragments_lay_their_config_over(
    base: Option<Seq<EntryView>>,
    fragment: Option<Seq<EntryView>>,
    key: NodeView,
)
    requires
        fragment matches Some(f) ==> key_views(f).no_duplicates(),
    ensures
        fragment is None ==> merged_config(base, fragment) == base,
        base is None ==> merged_config(base, fragment) == fragment,
        base matches Some(b) ==> fragment matches Some(f) ==> merged_config(
            base,
            fragment,
        ) matches Some(m) && {
            &&& get(m, key) is Some <==> get(b, key) is Some || get(f, key) is Some
            &&& get(f, key) is None ==> get(m, key) == get(b, key)
            &&& get(f, key) matches Some(v) ==> !(v is Mapping) && !(v is Sequence) ==> get(m, key)
                == Some(v)
            &&& get(b, key) matches Some(NodeView::Sequence(x)) ==> get(f, key) matches Some(
                NodeView::Sequence(y),
            ) ==> get(m, key) == Some(NodeView::Sequence(x + y))
        },
{
    if let (Some(b), Some(f)) = (base, fragment) {
        merged_keys_are_those_of_both(b, f, key);
        merge_by_key(b, f, f.len(), key);
        assert(f.take(f.len() as int) =~= f);
    }
}

/// A fragment is named by `@://` and a path below the repository, and by nothing else.
pub proof fn fragments_are_named_by_path(root: Seq<char>, path: Seq<char>, uses: Seq<char>)
    ensures
        path.len() > 0 && stays_below(path) ==> uses_path(root, "@://"@ + path) == Ok::<
            Seq<char>,
            Seq<char>,
        >(joined_path(root, path)),
        path.len() == 0 || !stays_below(path) ==> uses_path(root, "@://"@ + path) is Err,
        uses_path(root, uses) is Ok ==> "@://"@.is_prefix_of(uses),
{
    reveal_strlit("@");
    reveal_strlit("://");
    reveal_strlit("@://");
    let none = Seq::<char>::empty();
    let named = "@://"@ + path;
    let body = "://"@ + path;
    assert(named.skip(1) =~= body);
    assert("@"@.is_prefix_of(named)) by {
        assert(named.take(1) =~= "@"@);
    }
    assert(body.subrange(0, 3) =~= "://"@);
    assert(occurs_at(body, "://"@, 0));
    assert(find(body, "://"@) == Some(0int));
    assert(body.take(0) =~= none);
    assert(body.skip(3) =~= path);
    if uses_path(root, uses) is Ok {
        let rest = uses.skip(1);
        let i = find(rest, "://"@);
        lemma_find_from(rest, "://"@, 0);
        assert(i is Some);
        let scheme = rest.take(i->0);
        assert(scheme.len() == 0);
        assert(i == Some(0int));
        assert(rest.subrange(0, 3) =~= "://"@);
        assert(uses[0] == "@"@[0]) by {
            assert("@"@.is_prefix_of(uses));
        }
        assert(uses.take(4) =~= "@://"@) by {
            assert(uses[1] == rest[0] && uses[2] == rest[1] && uses[3] == rest[2]);
            assert(rest.subrange(0, 3)[0] == rest[0] && rest.subrange(0, 3)[1] == rest[1]
                && rest.subrange(0, 3)[2] == rest[2]);
        }
    }
}

/// A path is taken from a directory by standing behind it, with one slash between; an absolute
/// path stands for itself.
pub proof fn paths_are_taken_from_directories(base: Seq<char>, path: Seq<char>)
    requires
        base.len() > 0,
    ensures
        path.len() > 0 && path[0] == '/' ==> joined_path(base, path) == path,
        (path.len() == 0 || path[0] != '/') && base.last() != '/' ==> joined_path(base, path)
            == base + seq!['/'] + path,
        (path.len() == 0 || path[0] != '/') && base.last() == '/' ==> joined_path(base, path)
            == base + path,
{
    reveal_strlit("/");
    let slash = "/"@;
    assert(slash =~= seq!['/']);
    if path.len() > 0 && path[0] == '/' {
        assert(path.take(1) =~= slash);
        assert(starts_with(path, slash));
    } else if starts_with(path, slash) {
        assert(path[0] == slash[0]);
    }
    if base.last() == '/' {
        assert(base.subrange(base.len() - 1, base.len() as int) =~= slash);
        assert(ends_with(base, slash));
    } else if ends_with(base, slash) {
        assert(base.last() == slash[0]);
    }
}

// ---------------------------------------------------------------------------
// Commands in the guest
// ---------------------------------------------------------------------------

/// How an attempt ended decides how a step's command ends. A command that has to succeed does so
/// just if it succeeded; of one whose outcome is judged, the exit code is handed back, and only a
/// timeout or a lost connection fails it. A lost connection is tried again while there are tries
/// left.
pub proof fn attempts_decide(
    limits: SshLimits,
    judged: bool,
    state: SshState,
    attempt: SshExecOutcome,
)
    requires
        state.phase == SshPhase::Attempting,
        state.failure is None,
        state.attempts < limits.retries.tries,
    ensures
        ({
            let after = ssh_next(limits, judged, state, SshEvent::Attempted(attempt));
            let ended = after.phase == SshPhase::Finished;
            &&& attempt is Success ==> ended && after.failure is None && after.exit == 0
            &&& attempt is StepTimeout || attempt is OverallTimeout ==> ended && after.failure
                is Some
            &&& attempt matches SshExecOutcome::RemoteFailure(code) ==> ended && (
            after.failure is None <==> judged) && (judged ==> after.exit == if code < 0x8000_0000 {
                code as int
            } else {
                code - 0x1_0000_0000
            })
            &&& attempt is TransportError ==> (ended <==> state.attempts + 1
                >= limits.retries.tries) && (ended <==> after.failure is Some)
            &&& after.stdout == state.stdout && after.stderr == state.stderr
        }),
{
}

/// What a command writes is kept stream by stream, in order, and nothing else is; an interruption
/// ends it, and after a lost connection it rests and then tries again.
pub proof fn streams_are_kept_apart(
    limits: SshLimits,
    judged: bool,
    state: SshState,
    is_stderr: bool,
    data: Vec<u8>,
    polled: Result<(), PlanError>,
)
    ensures
        state.phase == SshPhase::Attempting ==> ({
            let after = ssh_next(limits, judged, state, SshEvent::Output { is_stderr, data });
            &&& is_stderr ==> after.stderr == state.stderr + data@ && after.stdout == state.stdout
            &&& !is_stderr ==> after.stdout == state.stdout + data@ && after.stderr
                == state.stderr
            &&& after.phase == state.phase && after.failure == state.failure
        }),
        state.phase == SshPhase::Polling || state.phase == SshPhase::Resting || state.phase
            == SshPhase::Opening ==> ({
            let after = ssh_next(limits, judged, state, SshEvent::Ended(polled));
            &&& polled is Err ==> after.phase == SshPhase::Finished && after.failure is Some
            &&& polled is Ok ==> after.failure == state.failure && after.phase
                != SshPhase::Finished
        }),
        state.phase == SshPhase::Resting && polled is Ok ==> ({
            let rested = ssh_next(limits, judged, state, SshEvent::Ended(polled));
            let again = ssh_next(limits, judged, rested, SshEvent::Ended(polled));
            let tried = ssh_next(limits, judged, again, SshEvent::Ended(polled));
            rested.phase == SshPhase::Pausing && tried.phase == SshPhase::Attempting
        }),
{
}

// ---------------------------------------------------------------------------
// Commands on the host
// ---------------------------------------------------------------------------

/// A command on the host is left to run while it has time: its own, counted from when it began,
/// and that of the run. It is looked at again after a pause.
pub proof fn commands_get_their_time(
    name: Seq<char>,
    budget: StepExecutionBudget,
    judged: bool,
    state: HostState,
    now: u128,
)
    ensures
        state.phase == HostPhase::Attaching ==> host_next(
            name,
            budget,
            judged,
            state,
            HostEvent::Attached { result: Ok(()), now },
        ).step_deadline == now + span(budget.step_timeout),
        state.phase == HostPhase::Looking && 0 <= state.step_deadline <= u128::MAX && now
            < state.step_deadline && now < budget.overall_deadline ==> ({
            let look = HostEvent::Looked { poll: Ok(()), look: Ok(HostLook::Running), now };
            let seen = host_next(name, budget, judged, state, look);
            let polled = host_next(name, budget, judged, seen, HostEvent::Ended(Ok(())));
            let paused = host_next(name, budget, judged, polled, HostEvent::Ended(Ok(())));
            &&& seen.phase == HostPhase::Polling
            &&& polled.phase == HostPhase::Pausing
            &&& paused.phase == HostPhase::Looking
            &&& paused.failure == state.failure
            &&& paused.step_deadline == state.step_deadline
        }),
{
}

/// Of a command on the host whose outcome is judged, exit code and streams are handed back as
/// they are, whatever the code is. An interruption ends any command.
pub proof fn judged_commands_hand_back_their_outcome(
    name: Seq<char>,
    budget: StepExecutionBudget,
    state: HostState,
    now: u128,
    code: i32,
    status: String,
    stdout: Vec<u8>,
    stderr: Vec<u8>,
    removed: Result<(), PlanError>,
    interrupted: PlanError,
    judged: bool,
    look: Result<HostLook, PlanError>,
)
    requires
        state.phase == HostPhase::Looking,
        state.failure is None,
    ensures
        ({
            let seen = HostEvent::Looked {
                poll: Ok(()),
                look: Ok(HostLook::Exited { code: Some(code), status }),
                now,
            };
            let exited = host_next(name, budget, true, state, seen);
            let joined = host_next(
                name,
                budget,
                true,
                exited,
                HostEvent::Joined { stdout: Some(stdout), stderr: Some(stderr) },
            );
            let done = host_next(name, budget, true, joined, HostEvent::Ended(removed));
            &&& done.phase == HostPhase::Finished
            &&& done.failure is None
            &&& done.exit == code
            &&& done.stdout == stdout@
            &&& done.stderr == stderr@
        }),
        ({
            let event = HostEvent::Looked { poll: Err(interrupted), look, now };
            let after = host_next(name, budget, judged, state, event);
            after.phase == HostPhase::Finished && after.failure == Some(interrupted@)
        }),
{
}

/// A machine that is to stop is asked to power off first if that was wanted, and is then given
/// its time from when it was asked. One that is not there is never waited for.
pub proof fn machines_are_asked_first(state: Shutdown, now: u128)
    ensures
        state.phase == ShutdownPhase::Start && now < state.overall_deadline ==> ({
            let next = state.next(ShutdownEvent::Clock { interrupted: false, now });
            &&& next.phase == ShutdownPhase::PoweringOff <==> state.request_poweroff
            &&& next.phase == ShutdownPhase::Arming <==> !state.request_poweroff
            &&& next.verdict == state.verdict
        }),
        state.phase == ShutdownPhase::Arming && now + span(BUILD_POWEROFF_TIMEOUT_SECS)
            <= u128::MAX ==> ({
            let next = state.next(ShutdownEvent::Clock { interrupted: false, now });
            &&& next.phase == ShutdownPhase::Watching <==> state.vm
            &&& state.vm ==> next.poweroff_deadline == now + span(BUILD_POWEROFF_TIMEOUT_SECS)
            &&& !state.vm ==> next.verdict == ShutdownVerdict::Unclean
        }),
{
}

// ---------------------------------------------------------------------------
// Streams
// ---------------------------------------------------------------------------

/// The reading of a stream goes on with what was read, ends well behind the last byte once a
/// last line without an end was logged, and ends with an error at the first that occurs.
pub proof fn streams_are_read_to_their_end(state: StreamState, event: StreamEvent)
    requires
        stream_awaits(state.phase, event),
        state.phase != StreamPhase::Start,
        state.phase != StreamPhase::Finished,
        state.phase == StreamPhase::Logging ==> state.lines.len() > 0,
    ensures
        ({
            let after = stream_next(state, event);
            let failed = match event {
                StreamEvent::Read(r) => r is Err,
                StreamEvent::Ended(r) => r is Err,
            };
            &&& failed ==> after.phase == StreamPhase::Finished && after.failure is Some
            &&& !failed ==> after.failure == state.failure
            &&& event matches StreamEvent::Read(Ok(data)) ==> {
                &&& data@.len() > 0 ==> after.phase == StreamPhase::Forwarding && after.chunk
                    == data@
                &&& data@.len() == 0 ==> (after.phase == StreamPhase::Closing
                    <==> state.pending.len() > 0) && (after.phase == StreamPhase::Finished
                    <==> state.pending.len() == 0)
                &&& after.pending == state.pending
            }
            &&& !failed && state.phase == StreamPhase::Logging ==> after.lines == state.lines.skip(
                1,
            ) && (after.phase == StreamPhase::Logging <==> state.lines.len() > 1)
            &&& !failed && state.phase == StreamPhase::Closing ==> after.phase
                == StreamPhase::Finished
            &&& !failed && state.phase == StreamPhase::Forwarding ==> after.phase
                != StreamPhase::Finished && after.phase != StreamPhase::Closing
        }),
{
}

// ---------------------------------------------------------------------------
// Assertions of plugins
// ---------------------------------------------------------------------------

/// An assertion that no plugin provides ends the checking with an error when its turn comes;
/// one that is provided is checked then. What fails ends the checking with an error.
pub proof fn assertions_need_a_provider(state: AssertPhase, i: int, last: Result<(), PlanError>)
    requires
        state.wf(),
        0 <= i < state.plugins@.len(),
        (state.stage == AssertStage::Start && state.verbs@.len() == 0 && i == 0) || (
        state.stage matches AssertStage::Builtin(b) && b + 1 == state.verbs@.len() && i == 0) || (
        state.stage matches AssertStage::Checks(c) && i == c + 1),
    ensures
        last is Err ==> state.ending(last) is Some,
        last is Ok ==> ({
            let provided = texts(state.provided@).contains(state.plugins@[i]@);
            &&& state.ending(last) is None <==> provided
            &&& state.next_stage() == (if provided {
                AssertStage::Serialize(i as usize)
            } else {
                AssertStage::Finished
            })
        }),
{
}

/// What a command on the host writes is what it runs and what it removes, under its interpreter
/// or, once that was not there, under the other one, and with the variables that it was given.
pub proof fn host_commands_run_their_script<T>(step: HostStep, action: HostAction<T>)
    requires
        host_acts(step, action),
    ensures
        step.phase == HostPhase::Writing ==> (action matches HostAction::WriteFile { path, body }
            && path@ == step.script@ && body@ == step.body@),
        step.phase == HostPhase::Spawning ==> (action matches HostAction::Spawn { argv, env } && {
            let template = if step.fell_back && step.fallback is Some {
                texts(step.fallback->0@)
            } else {
                texts(step.template@)
            };
            &&& argv@.len() == template.len()
            &&& forall|k: int|
                0 <= k < template.len() ==> (#[trigger] argv@[k])@ == if template[k] == "{0}"@ {
                    step.script@
                } else {
                    template[k]
                }
            &&& pairs(env@) == pairs(step.env@)
        }),
        step.phase == HostPhase::Removing ==> (action matches HostAction::RemoveFile { path }
            && path@ == step.script@),
{
    if step.phase == HostPhase::Spawning {
        if let HostAction::Spawn { argv, env } = action {
            let words = texts(argv@);
            assert(words.len() == argv@.len());
            assert forall|k: int| 0 <= k < argv@.len() implies (#[trigger] argv@[k])@
                == words[k] by {}
        }
    }
}

/// What is logged of a command in the guest comes from the stream that brought it: a chunk brings
/// the lines that it completes, and the end of an attempt the last line of each stream.
pub proof fn lines_are_logged_by_stream(state: SshState, is_stderr: bool, data: Vec<u8>)
    ensures
        ({
            let logged = ssh_logs(state, SshEvent::Output { is_stderr, data });
            let seen = if is_stderr {
                state.stderr
            } else {
                state.stdout
            };
            &&& complete_lines(seen + data@) == complete_lines(seen) + logged.map_values(
                |l: (StepOutputStream, Seq<u8>)| l.1,
            )
            &&& forall|k: int|
                0 <= k < logged.len() ==> ((#[trigger] logged[k]).0 == StepOutputStream::Stderr
                    <==> is_stderr)
        }),
{
    let seen = if is_stderr {
        state.stderr
    } else {
        state.stdout
    };
    let logged = ssh_logs(state, SshEvent::Output { is_stderr, data });
    lines_do_not_depend_on_chunks(seen, data@);
    assert(logged.map_values(|l: (StepOutputStream, Seq<u8>)| l.1) =~= new_lines(seen, data@));
}

// ---------------------------------------------------------------------------
// What is done in a state
// ---------------------------------------------------------------------------

/// What was read of a stream is shown as it was read, the lines that wait are logged from the
/// first on, and the reading is done just when it is over, with an error just if there was one.
pub proof fn streams_do_their_work(state: StreamState, action: StreamAction)
    requires
        stream_acts(state, action),
    ensures
        match action {
            StreamAction::Read => state.phase == StreamPhase::Reading,
            StreamAction::Forward { data } => state.phase == StreamPhase::Forwarding && data@
                == state.chunk,
            StreamAction::Log { line } => (state.phase == StreamPhase::Logging && line@
                == state.lines[0]) || (state.phase == StreamPhase::Closing && line@
                == state.pending),
            StreamAction::Done(r) => state.phase == StreamPhase::Finished && (r is Err
                <==> state.failure is Some),
        },
{
}

/// A command in the guest is attempted with the time that it has to connect, and not again while
/// it brings output; between two attempts comes the pause that was asked for.
pub proof fn guest_commands_do_their_work<T>(
    limits: SshLimits,
    phase: SshPhase,
    event: SshEvent,
    action: SshAction<T>,
)
    requires
        ssh_acts(limits, phase, event, action),
    ensures
        action matches SshAction::Attempt { connect_secs } ==> phase == SshPhase::Attempting
            && !(event is Output) && connect_secs == limits.connect_secs,
        action matches SshAction::Pause { secs } ==> phase == SshPhase::Pausing && secs
            == limits.retries.delay_secs,
        action is Done <==> phase == SshPhase::Finished,
        action is GoOn <==> phase == SshPhase::Attempting && event is Output,
        phase == SshPhase::Attempting && !(event is Output) ==> action is Attempt,
{
}

/// The checking of assertions does what its stage says of the assertion whose turn it is, and is
/// done just when it is over, with an error just if something failed.
pub proof fn assertions_do_their_work(state: AssertPhase, action: AssertAction)
    requires
        assert_acts(state, action),
    ensures
        match action {
            AssertAction::RunBuiltin(verb) => state.stage matches AssertStage::Builtin(i) && verb
                == state.verbs@[i as int],
            AssertAction::Serialize(i) => state.stage == AssertStage::Serialize(i),
            AssertAction::BuildProbe(i) => state.stage == AssertStage::BuildProbe(i),
            AssertAction::RunProbe(i) => state.stage == AssertStage::Probe(i),
            AssertAction::Evaluate(i) => state.stage == AssertStage::Evaluate(i),
            AssertAction::ReportChecks(i) => state.stage == AssertStage::Checks(i),
            AssertAction::Done(r) => state.stage == AssertStage::Finished && (r is Err
                <==> state.failure is Some),
        },
{
}

/// The stopping of a machine is shown as done well just if it was clean, and as failed once its
/// disk was set aside.
pub proof fn stops_are_shown(state: Shutdown, event: ShutdownEvent, note: Option<ShutdownNote>)
    requires
        state.wf(),
        shutdown_awaits(state.phase, event),
        state.shows_note(event, note),
    ensures
        note == Some(ShutdownNote::Status { ok: true }) <==> state.phase == ShutdownPhase::Watching
            && (event matches ShutdownEvent::Look { interrupted, vm, .. } && !interrupted && vm == (
        VmState::Exited { success: true })),
        note == Some(ShutdownNote::Status { ok: false }) <==> state.phase == ShutdownPhase::Renaming
            && (event matches ShutdownEvent::Ended(r) && r is Ok),
        note == Some(ShutdownNote::Title) <==> state.phase == ShutdownPhase::Start,
{
}

} // verus!
