//! The command of a step in the guest: attempts, and what they bring.

use vstd::prelude::*;
use vstd::string::*;

use crate::budget::{Retries, overall_message, overall_timeout_error};
use crate::error::{PlanError, outcome};
use crate::expect::StepCapture;
use crate::logging::{StepOutputStream, byte_lines, partial_line};
use crate::records::{lossy_text, text_of_bytes};
use crate::staging::opt_error;
use crate::streams::{StepStream, new_lines};
use crate::strings::{cat2, cat3, cat5, decimal_u64};
use crate::text::decimal;

verus! {

/// How an attempt to run a command in the guest ended.
#[derive(Debug, PartialEq, Eq)]
pub enum SshExecOutcome {
    Success,
    StepTimeout,
    OverallTimeout,
    /// The command ran and exited with that code.
    RemoteFailure(u32),
    /// The command may not have run at all.
    TransportError(String),
}

/// How far the command of a step has come.
#[derive(Clone, Copy, Debug, PartialEq, Eq, Structural)]
pub enum SshPhase {
    Start,
    /// The log of the step is opened.
    Opening,
    /// It is looked whether the run was interrupted, before an attempt.
    Polling,
    /// The command runs.
    Attempting,
    /// It is looked whether the run was interrupted, after a failed attempt.
    Resting,
    /// The next attempt is waited for.
    Pausing,
    Finished,
}

/// The command of a step in the guest.
#[derive(Debug)]
pub struct SshStep {
    /// The name of the step.
    pub name: String,
    /// Seconds that the step may take.
    pub step_timeout: u64,
    /// Seconds that the whole run may take.
    pub overall_timeout: u64,
    /// How often the command is tried.
    pub retries: Retries,
    /// Seconds that the connection may take.
    pub connect_secs: u64,
    pub phase: SshPhase,
    /// How many attempts have failed.
    pub attempts: usize,
    /// What the command writes in this attempt.
    pub stdout: StepStream,
    pub stderr: StepStream,
    /// The code that the command exited with.
    pub exit: i32,
    /// How the step fails, as far as that is known.
    pub failure: Option<PlanError>,
}

/// What happened since the last action.
#[derive(Debug)]
pub enum SshEvent {
    /// The action ended.
    Ended(Result<(), PlanError>),
    /// The command wrote that, to standard error or to standard output.
    Output { is_stderr: bool, data: Vec<u8> },
    /// The attempt ended.
    Attempted(SshExecOutcome),
}

/// What to do next.
#[derive(Debug)]
pub enum SshAction<T> {
    /// Open the log of the step.
    OpenLog,
    /// Look whether the run was interrupted.
    Poll,
    /// Run the command, with so many seconds for the connection.
    Attempt { connect_secs: u64 },
    /// Let the command run on.
    GoOn,
    /// Wait that many seconds before the next attempt.
    Pause { secs: u64 },
    Done(Result<T, PlanError>),
}

/// A line to log.
#[derive(Debug, PartialEq, Eq)]
pub struct LogLine {
    pub stream: StepOutputStream,
    pub line: Vec<u8>,
}

/// What to log and then to do. What cannot be logged does not change how a step ends.
#[derive(Debug)]
pub struct SshOutput<T> {
    pub log: Vec<LogLine>,
    pub action: SshAction<T>,
}

/// The contents of lines to log.
pub open spec fn log_views(log: Seq<LogLine>) -> Seq<(StepOutputStream, Seq<u8>)> {
    log.map_values(|l: LogLine| (l.stream, l.line@))
}

/// The model of the command of a step.
#[verifier::ext_equal]
pub struct SshState {
    pub phase: SshPhase,
    pub attempts: usize,
    pub stdout: Seq<u8>,
    pub stderr: Seq<u8>,
    pub exit: i32,
    pub failure: Option<Seq<char>>,
}

impl View for SshStep {
    type V = SshState;

    open spec fn view(&self) -> SshState {
        SshState {
            phase: self.phase,
            attempts: self.attempts,
            stdout: self.stdout.captured@,
            stderr: self.stderr.captured@,
            exit: self.exit,
            failure: opt_error(self.failure),
        }
    }
}

/// The limits of the command of a step.
pub struct SshLimits {
    pub name: Seq<char>,
    pub step_timeout: u64,
    pub overall_timeout: u64,
    pub retries: Retries,
    pub connect_secs: u64,
}

/// Whether one more failed attempt uses the attempts up.
pub open spec fn exhausted(attempts: usize, retries: usize) -> bool {
    attempts + 1 >= retries
}

/// The message that a step in the guest took too long.
pub open spec fn guest_timeout_message(name: Seq<char>, secs: u64) -> Seq<char> {
    "guest step '"@ + name + "' timed out after "@ + decimal(secs as nat) + "s"@
}

/// The code of a command that exited, as a signed number.
pub open spec fn signed_code(code: u32) -> int {
    if code < 0x8000_0000 {
        code as int
    } else {
        code - 0x1_0000_0000
    }
}

/// What the command of a step waits for.
pub open spec fn ssh_awaits(phase: SshPhase, event: SshEvent) -> bool {
    match phase {
        SshPhase::Attempting => event is Output || event is Attempted,
        _ => event is Ended,
    }
}

/// The state in which the command of a step has failed.
pub open spec fn ssh_fails(state: SshState, error: Seq<char>) -> SshState {
    SshState { phase: SshPhase::Finished, failure: Some(error), ..state }
}

/// The state in which the command of a step has exited.
pub open spec fn ssh_exits(state: SshState, code: int) -> SshState {
    SshState { phase: SshPhase::Finished, exit: code as i32, ..state }
}

/// The state after an attempt. `judged` tells whether the outcome of the command is judged
/// later.
pub open spec fn after_attempt(
    limits: SshLimits,
    judged: bool,
    state: SshState,
    attempt: SshExecOutcome,
) -> SshState {
    match attempt {
        SshExecOutcome::Success => ssh_exits(state, 0),
        SshExecOutcome::StepTimeout => ssh_fails(
            state,
            guest_timeout_message(limits.name, limits.step_timeout),
        ),
        SshExecOutcome::OverallTimeout => ssh_fails(
            state,
            overall_message(limits.overall_timeout),
        ),
        SshExecOutcome::RemoteFailure(code) => if judged {
            ssh_exits(state, signed_code(code))
        } else {
            ssh_fails(
                state,
                "ssh command failed (exit status: "@ + decimal(code as nat) + ")"@,
            )
        },
        SshExecOutcome::TransportError(e) => if exhausted(state.attempts, limits.retries.tries) {
            ssh_fails(state, "ssh command failed (transport error, retries exhausted): "@ + e@)
        } else {
            SshState {
                phase: SshPhase::Resting,
                attempts: (state.attempts + 1) as usize,
                ..state
            }
        },
    }
}

/// The state that follows when `event` happens. `judged` tells whether the outcome of the
/// command is judged later.
pub open spec fn ssh_next(
    limits: SshLimits,
    judged: bool,
    state: SshState,
    event: SshEvent,
) -> SshState {
    match state.phase {
        SshPhase::Start => SshState { phase: SshPhase::Opening, ..state },
        SshPhase::Opening => match event->Ended_0 {
            Err(e) => ssh_fails(state, e@),
            Ok(()) => SshState { phase: SshPhase::Polling, ..state },
        },
        SshPhase::Polling => match event->Ended_0 {
            Err(e) => ssh_fails(state, e@),
            Ok(()) => SshState {
                phase: SshPhase::Attempting,
                stdout: seq![],
                stderr: seq![],
                ..state
            },
        },
        SshPhase::Attempting => match event {
            SshEvent::Output { is_stderr, data } => if is_stderr {
                SshState { stderr: state.stderr + data@, ..state }
            } else {
                SshState { stdout: state.stdout + data@, ..state }
            },
            SshEvent::Attempted(attempt) => after_attempt(limits, judged, state, attempt),
            SshEvent::Ended(_) => state,
        },
        SshPhase::Resting => match event->Ended_0 {
            Err(e) => ssh_fails(state, e@),
            Ok(()) => SshState { phase: SshPhase::Pausing, ..state },
        },
        SshPhase::Pausing => SshState { phase: SshPhase::Polling, ..state },
        SshPhase::Finished => state,
    }
}

/// Lines of a stream, to log.
pub open spec fn of_stream(stream: StepOutputStream, lines: Seq<Seq<u8>>) -> Seq<
    (StepOutputStream, Seq<u8>),
> {
    lines.map_values(|line: Seq<u8>| (stream, line))
}

/// The line that a stream ends with, if no line end stands behind it.
pub open spec fn rest_of(stream: StepOutputStream, brought: Seq<u8>) -> Seq<
    (StepOutputStream, Seq<u8>),
> {
    let rest = partial_line(brought);
    if rest.len() > 0 {
        seq![(stream, rest)]
    } else {
        seq![]
    }
}

/// The lines that are logged when `event` happens: those that it completes; and at the end
/// of an attempt, those that its streams end with.
pub open spec fn ssh_logs(state: SshState, event: SshEvent) -> Seq<(StepOutputStream, Seq<u8>)> {
    match event {
        SshEvent::Output { is_stderr, data } => if is_stderr {
            of_stream(StepOutputStream::Stderr, new_lines(state.stderr, data@))
        } else {
            of_stream(StepOutputStream::Stdout, new_lines(state.stdout, data@))
        },
        SshEvent::Attempted(_) => rest_of(StepOutputStream::Stdout, state.stdout) + rest_of(
            StepOutputStream::Stderr,
            state.stderr,
        ),
        SshEvent::Ended(_) => seq![],
    }
}

/// What the command of a step does in a phase after `event`.
pub open spec fn ssh_acts<T>(
    limits: SshLimits,
    phase: SshPhase,
    event: SshEvent,
    action: SshAction<T>,
) -> bool {
    match phase {
        SshPhase::Start => false,
        SshPhase::Opening => action is OpenLog,
        SshPhase::Polling | SshPhase::Resting => action is Poll,
        SshPhase::Attempting => if event is Output {
            action is GoOn
        } else {
            action matches SshAction::Attempt { connect_secs } && connect_secs
                == limits.connect_secs
        },
        SshPhase::Pausing => action matches SshAction::Pause { secs } && secs
            == limits.retries.delay_secs,
        SshPhase::Finished => action is Done,
    }
}

fn to_signed_code(code: u32) -> (r: i32)
    ensures
        r == signed_code(code),
{
    if code < 0x8000_0000 {
        code as i32
    } else {
        (code as i64 - 0x1_0000_0000) as i32
    }
}

fn lines_of(stream: StepOutputStream, lines: Vec<Vec<u8>>) -> (r: Vec<LogLine>)
    ensures
        log_views(r@) == of_stream(stream, byte_lines(lines@)),
{
    let ghost all = of_stream(stream, byte_lines(lines@));
    let mut r: Vec<LogLine> = Vec::new();
    assert(log_views(r@) =~= all.take(0));
    let mut i: usize = 0;
    while i < lines.len()
        invariant
            i <= lines@.len(),
            all == of_stream(stream, byte_lines(lines@)),
            log_views(r@) == all.take(i as int),
        decreases lines@.len() - i,
    {
        let ghost had = log_views(r@);
        let line = lines[i].clone();
        assert(line@ =~= lines@[i as int]@);
        r.push(LogLine { stream, line });
        assert(byte_lines(lines@)[i as int] == lines@[i as int]@);
        assert(log_views(r@) =~= had.push(all[i as int]));
        assert(log_views(r@) =~= all.take(i + 1));
        i += 1;
    }
    assert(all.take(i as int) =~= all);
    r
}

fn log_rest(log: &mut Vec<LogLine>, stream: StepOutputStream, brought: &StepStream)
    requires
        brought.wf(),
    ensures
        log_views(final(log)@) == log_views(old(log)@) + rest_of(stream, brought.captured@),
{
    let ghost had = log_views(log@);
    match brought.last_line() {
        Some(line) => {
            log.push(LogLine { stream, line });
            assert(log_views(log@) =~= had + rest_of(stream, brought.captured@));
        },
        None => {
            assert(had + rest_of(stream, brought.captured@) =~= had);
        },
    }
}

impl SshStep {
    /// What waits of a stream is what stands behind its last complete line.
    pub open spec fn wf(self) -> bool {
        self.stdout.wf() && self.stderr.wf()
    }

    /// The limits of the command.
    pub open spec fn limits(self) -> SshLimits {
        SshLimits {
            name: self.name@,
            step_timeout: self.step_timeout,
            overall_timeout: self.overall_timeout,
            retries: self.retries,
            connect_secs: self.connect_secs,
        }
    }

    /// A command that was not tried.
    pub fn new(
        name: String,
        step_timeout: u64,
        overall_timeout: u64,
        retries: Retries,
        connect_secs: u64,
    ) -> (r: SshStep)
        ensures
            r.wf(),
            r.limits() == (SshLimits {
                name: name@,
                step_timeout,
                overall_timeout,
                retries,
                connect_secs,
            }),
            r@ == (SshState {
                phase: SshPhase::Start,
                attempts: 0,
                stdout: seq![],
                stderr: seq![],
                exit: 0,
                failure: None,
            }),
    {
        SshStep {
            name,
            step_timeout,
            overall_timeout,
            retries,
            connect_secs,
            phase: SshPhase::Start,
            attempts: 0,
            stdout: StepStream::new(),
            stderr: StepStream::new(),
            exit: 0,
            failure: None,
        }
    }

    fn fail(&mut self, error: PlanError)
        ensures
            final(self)@ == ssh_fails(old(self)@, error@),
            final(self).limits() == old(self).limits(),
            final(self).wf() == old(self).wf(),
    {
        self.failure = Some(error);
        self.phase = SshPhase::Finished;
    }

    fn attempted(&mut self, judged: bool, attempt: SshExecOutcome)
        requires
            old(self).phase == SshPhase::Attempting,
        ensures
            final(self)@ == after_attempt(old(self).limits(), judged, old(self)@, attempt),
            final(self).limits() == old(self).limits(),
            final(self).wf() == old(self).wf(),
    {
        match attempt {
            SshExecOutcome::Success => {
                self.exit = 0;
                self.phase = SshPhase::Finished;
            },
            SshExecOutcome::StepTimeout => {
                let n = decimal_u64(self.step_timeout);
                let error = PlanError::new(
                    cat5(
                        "guest step '",
                        self.name.as_str(),
                        "' timed out after ",
                        n.as_str(),
                        "s",
                    ),
                );
                self.fail(error);
            },
            SshExecOutcome::OverallTimeout => {
                let error = overall_timeout_error(self.overall_timeout);
                self.fail(error);
            },
            SshExecOutcome::RemoteFailure(code) => if judged {
                self.exit = to_signed_code(code);
                self.phase = SshPhase::Finished;
            } else {
                let n = decimal_u64(code as u64);
                self.fail(
                    PlanError::new(cat3("ssh command failed (exit status: ", n.as_str(), ")")),
                );
            },
            SshExecOutcome::TransportError(e) => {
                if self.retries.tries <= 1 || self.attempts >= self.retries.tries - 1 {
                    self.fail(
                        PlanError::new(
                            cat2(
                                "ssh command failed (transport error, retries exhausted): ",
                                e.as_str(),
                            ),
                        ),
                    );
                } else {
                    self.attempts = self.attempts + 1;
                    self.phase = SshPhase::Resting;
                }
            },
        }
    }

    /// Takes in what happened, and gives the lines to log.
    fn go_on(&mut self, judged: bool, event: SshEvent) -> (log: Vec<LogLine>)
        requires
            old(self).wf(),
            ssh_awaits(old(self).phase, event),
        ensures
            final(self).wf(),
            final(self)@ == ssh_next(old(self).limits(), judged, old(self)@, event),
            final(self).limits() == old(self).limits(),
            log_views(log@) == ssh_logs(old(self)@, event),
    {
        let mut log: Vec<LogLine> = Vec::new();
        assert(log_views(log@) =~= seq![]);
        match event {
            SshEvent::Output { is_stderr, data } => {
                if is_stderr {
                    let lines = self.stderr.take_in(&data);
                    log = lines_of(StepOutputStream::Stderr, lines);
                } else {
                    let lines = self.stdout.take_in(&data);
                    log = lines_of(StepOutputStream::Stdout, lines);
                }
            },
            SshEvent::Attempted(attempt) => {
                log_rest(&mut log, StepOutputStream::Stdout, &self.stdout);
                log_rest(&mut log, StepOutputStream::Stderr, &self.stderr);
                assert(log_views(log@) =~= ssh_logs(self@, SshEvent::Attempted(attempt)));
                self.attempted(judged, attempt);
            },
            SshEvent::Ended(result) => match self.phase {
                SshPhase::Start => {
                    self.phase = SshPhase::Opening;
                },
                SshPhase::Opening => match result {
                    Err(e) => self.fail(e),
                    Ok(()) => {
                        self.phase = SshPhase::Polling;
                    },
                },
                SshPhase::Polling => match result {
                    Err(e) => self.fail(e),
                    Ok(()) => {
                        self.stdout = StepStream::new();
                        self.stderr = StepStream::new();
                        self.phase = SshPhase::Attempting;
                    },
                },
                SshPhase::Resting => match result {
                    Err(e) => self.fail(e),
                    Ok(()) => {
                        self.phase = SshPhase::Pausing;
                    },
                },
                SshPhase::Pausing => {
                    self.phase = SshPhase::Polling;
                },
                SshPhase::Attempting | SshPhase::Finished => {},
            },
        }
        log
    }

    /// What to do in the phase that the command is in, unless it is done.
    fn act<T>(&self, came: bool) -> (action: Option<SshAction<T>>)
        requires
            self.phase != SshPhase::Start,
        ensures
            match action {
                Some(a) => self.phase != SshPhase::Finished && a !is Done && forall|event: SshEvent|
                    came == (event is Output) ==> #[trigger] ssh_acts(
                    self.limits(),
                    self.phase,
                    event,
                    a,
                ),
                None => self.phase == SshPhase::Finished,
            },
    {
        match self.phase {
            SshPhase::Opening => Some(SshAction::OpenLog),
            SshPhase::Polling | SshPhase::Resting => Some(SshAction::Poll),
            SshPhase::Attempting => if came {
                Some(SshAction::GoOn)
            } else {
                Some(SshAction::Attempt { connect_secs: self.connect_secs })
            },
            SshPhase::Pausing => Some(SshAction::Pause { secs: self.retries.delay_secs }),
            SshPhase::Start | SshPhase::Finished => None,
        }
    }
}

fn is_output(event: &SshEvent) -> (r: bool)
    ensures
        r == (event is Output),
{
    match event {
        SshEvent::Output { .. } => true,
        _ => false,
    }
}

/// Runs the command of a step in the guest that has to succeed: takes what happened since
/// the last action, and says what to log and what to do next. Only a failure of the
/// transport is tried again.
pub fn run_ssh_step_with_step_log(step: &mut SshStep, event: SshEvent) -> (r: SshOutput<()>)
    requires
        old(step).wf(),
        ssh_awaits(old(step).phase, event),
    ensures
        final(step).wf(),
        final(step).limits() == old(step).limits(),
        final(step)@ == ssh_next(old(step).limits(), false, old(step)@, event),
        log_views(r.log@) == ssh_logs(old(step)@, event),
        ssh_acts(old(step).limits(), final(step).phase, event, r.action),
        r.action matches SshAction::Done(d) ==> outcome(d, final(step)@.failure),
{
    let came = is_output(&event);
    let log = step.go_on(false, event);
    let action = match step.act(came) {
        Some(action) => action,
        None => match &step.failure {
            Some(e) => SshAction::Done(Err(e.clone())),
            None => SshAction::Done(Ok(())),
        },
    };
    SshOutput { log, action }
}

/// Runs the command of a step in the guest whose outcome is judged later, as
/// [`run_ssh_step_with_step_log`] does: whatever code it exits with, it gives the code and
/// what the command wrote in the last attempt.
pub fn run_ssh_step_capturing(step: &mut SshStep, event: SshEvent) -> (r: SshOutput<
    (StepCapture, i32),
>)
    requires
        old(step).wf(),
        ssh_awaits(old(step).phase, event),
    ensures
        final(step).wf(),
        final(step).limits() == old(step).limits(),
        final(step)@ == ssh_next(old(step).limits(), true, old(step)@, event),
        log_views(r.log@) == ssh_logs(old(step)@, event),
        ssh_acts(old(step).limits(), final(step).phase, event, r.action),
        r.action matches SshAction::Done(d) ==> {
            &&& outcome(d, final(step)@.failure)
            &&& d matches Ok(done) ==> {
                &&& done.0.stdout@ == lossy_text(final(step)@.stdout)
                &&& done.0.stderr@ == lossy_text(final(step)@.stderr)
                &&& done.1 == final(step)@.exit
            }
        },
{
    let came = is_output(&event);
    let log = step.go_on(true, event);
    let action = match step.act(came) {
        Some(action) => action,
        None => match &step.failure {
            Some(e) => SshAction::Done(Err(e.clone())),
            None => {
                let capture = StepCapture {
                    stdout: text_of_bytes(step.stdout.captured.as_slice()),
                    stderr: text_of_bytes(step.stderr.captured.as_slice()),
                };
                SshAction::Done(Ok((capture, step.exit)))
            },
        },
    };
    SshOutput { log, action }
}

// ---------------------------------------------------------------------------
// What holds of every command
// ---------------------------------------------------------------------------

/// Only a failure of the transport is tried again, and no more often than allowed: the
/// attempts that have failed stay fewer than the attempts there may be.
pub proof fn only_the_transport_is_tried_again(
    limits: SshLimits,
    judged: bool,
    state: SshState,
    event: SshEvent,
)
    requires
        ssh_awaits(state.phase, event),
        limits.retries.tries > 0,
        state.attempts < limits.retries.tries,
    ensures
        ({
            let after = ssh_next(limits, judged, state, event);
            &&& after.attempts < limits.retries.tries
            &&& after.attempts != state.attempts ==> {
                &&& event matches SshEvent::Attempted(attempt)
                &&& attempt is TransportError
                &&& after.attempts == state.attempts + 1
            }
            &&& event is Attempted && after.phase != SshPhase::Finished ==> after.attempts
                == state.attempts + 1
        }),
{
}

/// What earlier attempts wrote does not count: an attempt begins with nothing.
pub proof fn attempts_begin_afresh(
    limits: SshLimits,
    judged: bool,
    state: SshState,
    event: SshEvent,
)
    requires
        ssh_awaits(state.phase, event),
        state.phase != SshPhase::Attempting,
        ssh_next(limits, judged, state, event).phase == SshPhase::Attempting,
    ensures
        ssh_next(limits, judged, state, event).stdout.len() == 0,
        ssh_next(limits, judged, state, event).stderr.len() == 0,
{
}

} // verus!
