//! The command of a step on the host: from its files to what it wrote.

use vstd::prelude::*;
use vstd::string::*;

use crate::budget::{
    WaitResult, cause_of, deadline, overall_message, overall_timeout_error, span, timeout_cause,
};
use crate::error::{PlanError, in_context, outcome};
use crate::expect::StepCapture;
use crate::guest::{place_script, with_script};
use crate::pairs::{cloned_pairs, pairs};
use crate::records::{lossy_text, text_of_bytes};
use crate::staging::opt_error;
use crate::strings::{cat4, cat5, decimal_u64};
use crate::text::{decimal, texts};

verus! {

/// How long to wait between two looks at a command, in nanoseconds.
pub const LOOK_PAUSE: u128 = 200_000_000;

/// The mode of a file that everyone may read and write.
pub const SHARED_MODE: u32 = 0o666;

/// The limits of a step that runs.
#[derive(Clone, Copy, Debug, PartialEq, Eq)]
pub struct StepExecutionBudget {
    /// Seconds that the step may take.
    pub step_timeout: u64,
    /// When the time of the whole run is over.
    pub overall_deadline: u128,
    /// Seconds that the whole run may take.
    pub overall_timeout: u64,
}

/// How far the command of a step has come.
#[derive(Clone, Copy, Debug, PartialEq, Eq, Structural)]
pub enum HostPhase {
    Start,
    /// The file for variables is made.
    MakingEnv,
    /// The file for outputs is made.
    MakingOut,
    /// The mode of the file for variables is read.
    ReadingEnvMode,
    /// The file for variables is opened to everyone.
    SharingEnv,
    /// The mode of the file for outputs is read.
    ReadingOutMode,
    /// The file for outputs is opened to everyone.
    SharingOut,
    /// The script is written.
    Writing,
    /// The log of the step is opened.
    Opening,
    /// The command is started.
    Spawning,
    /// Its streams are taken over.
    Attaching,
    /// It is looked whether the command still runs.
    Looking,
    /// It runs; it is looked whether the run was interrupted.
    Polling,
    /// It runs, and there is time to wait.
    Pausing,
    /// It has run for too long, and is ended.
    Killing,
    /// The rest of its streams is read.
    Joining,
    /// The script is removed.
    Removing,
    Finished,
}

/// The command of a step on the host.
#[derive(Debug)]
pub struct HostStep {
    /// The name of the step.
    pub name: String,
    /// The script.
    pub body: String,
    /// The interpreter, with `{0}` in the place of the script.
    pub template: Vec<String>,
    /// The interpreter that is tried where that one is not there.
    pub fallback: Option<Vec<String>>,
    /// The variables that the command gets.
    pub env: Vec<(String, String)>,
    /// The file that the script may write variables to.
    pub env_path: String,
    /// The file that the script may write outputs to.
    pub out_path: String,
    /// The file that the script is written to.
    pub script: String,
    pub budget: StepExecutionBudget,
    pub phase: HostPhase,
    /// Whether the first interpreter was not there.
    pub fell_back: bool,
    /// When the time of the step is over, once the command was started.
    pub step_deadline: u128,
    /// The code that the command exited with.
    pub exit: i32,
    /// What the command wrote.
    pub stdout: Vec<u8>,
    pub stderr: Vec<u8>,
    /// How the step fails, as far as that is known.
    pub failure: Option<PlanError>,
}

/// What a look at a command shows.
#[derive(Debug)]
pub enum HostLook {
    /// It exited, with that code unless a signal ended it; `status` is what is shown.
    Exited { code: Option<i32>, status: String },
    /// It still runs.
    Running,
}

/// What happened since the last action.
#[derive(Debug)]
pub enum HostEvent {
    /// The action ended.
    Ended(Result<(), PlanError>),
    /// The program of the command is not there.
    Missing(PlanError),
    /// The streams were taken over, at that time.
    Attached { result: Result<(), PlanError>, now: u128 },
    /// The command was looked at, at that time, unless the run was interrupted before.
    Looked { poll: Result<(), PlanError>, look: Result<HostLook, PlanError>, now: u128 },
    /// The streams have ended; one that was lost is not there.
    Joined { stdout: Option<Vec<u8>>, stderr: Option<Vec<u8>> },
}

/// What to do next.
#[derive(Debug)]
pub enum HostAction<T> {
    /// Make that file, empty.
    CreateFile { path: String },
    /// Read the mode of that file.
    ReadMode { path: String },
    /// Set the mode of that file.
    SetMode { path: String, mode: u32 },
    /// Write the script.
    WriteFile { path: String, body: String },
    /// Open the log of the step.
    OpenLog,
    /// Start that command with those variables.
    Spawn { argv: Vec<String>, env: Vec<(String, String)> },
    /// Take its streams over.
    Attach,
    /// Look whether it still runs.
    Look,
    /// Look whether the run was interrupted.
    Poll,
    /// Wait that long.
    Pause { time: u128 },
    /// End it. How that ends does not matter.
    Kill,
    /// Read its streams to their end.
    Join,
    /// Remove that file. How that ends does not matter.
    RemoveFile { path: String },
    Done(Result<T, PlanError>),
}

/// What the command of a step changes, in the terms of the model.
#[verifier::ext_equal]
pub struct HostState {
    pub phase: HostPhase,
    /// Whether another interpreter can be tried.
    pub fallback: bool,
    pub step_deadline: int,
    pub exit: i32,
    pub stdout: Seq<u8>,
    pub stderr: Seq<u8>,
    pub failure: Option<Seq<char>>,
}

impl View for HostStep {
    type V = HostState;

    open spec fn view(&self) -> HostState {
        HostState {
            phase: self.phase,
            fallback: self.fallback is Some && !self.fell_back,
            step_deadline: self.step_deadline as int,
            exit: self.exit,
            stdout: self.stdout@,
            stderr: self.stderr@,
            failure: opt_error(self.failure),
        }
    }
}

/// The message that a step on the host took too long.
pub open spec fn host_timeout_message(name: Seq<char>, secs: u64) -> Seq<char> {
    "host step '"@ + name + "' timed out after "@ + decimal(secs as nat) + "s"@
}

/// Why a command that still runs has to end.
pub open spec fn overrun(
    name: Seq<char>,
    budget: StepExecutionBudget,
    step_deadline: u128,
    now: u128,
) -> Option<Seq<char>> {
    match cause_of(now, step_deadline, budget.overall_deadline) {
        Some(WaitResult::StepTimeout) => Some(host_timeout_message(name, budget.step_timeout)),
        Some(WaitResult::OverallTimeout) => Some(overall_message(budget.overall_timeout)),
        None => None,
    }
}

/// The message that something failed for a step on the host.
pub open spec fn host_trouble(what: Seq<char>, name: Seq<char>) -> Seq<char> {
    what + " host step '"@ + name + "'"@
}

/// What failed in a phase whose failure is told in a context.
pub open spec fn trouble_in(phase: HostPhase) -> Seq<char> {
    match phase {
        HostPhase::MakingEnv => "failed to create env file for"@,
        HostPhase::MakingOut => "failed to create out file for"@,
        HostPhase::ReadingEnvMode => "failed to stat env file for"@,
        HostPhase::SharingEnv => "failed to chmod env file for"@,
        HostPhase::ReadingOutMode => "failed to stat out file for"@,
        HostPhase::SharingOut => "failed to chmod out file for"@,
        HostPhase::Writing => "failed to write script file for"@,
        HostPhase::Spawning => "failed to spawn"@,
        _ => "failed to wait for"@,
    }
}

/// The phase that follows a phase which went well.
pub open spec fn phase_behind(phase: HostPhase) -> HostPhase {
    match phase {
        HostPhase::Start => HostPhase::MakingEnv,
        HostPhase::MakingEnv => HostPhase::MakingOut,
        HostPhase::MakingOut => HostPhase::ReadingEnvMode,
        HostPhase::ReadingEnvMode => HostPhase::SharingEnv,
        HostPhase::SharingEnv => HostPhase::ReadingOutMode,
        HostPhase::ReadingOutMode => HostPhase::SharingOut,
        HostPhase::SharingOut => HostPhase::Writing,
        HostPhase::Writing => HostPhase::Opening,
        HostPhase::Opening => HostPhase::Spawning,
        HostPhase::Spawning => HostPhase::Attaching,
        HostPhase::Attaching => HostPhase::Looking,
        HostPhase::Looking => HostPhase::Joining,
        HostPhase::Polling => HostPhase::Pausing,
        HostPhase::Pausing => HostPhase::Looking,
        HostPhase::Killing => HostPhase::Joining,
        HostPhase::Joining => HostPhase::Removing,
        HostPhase::Removing => HostPhase::Finished,
        HostPhase::Finished => HostPhase::Finished,
    }
}

/// Whether the failure of a phase ends the step, and is told in a context.
pub open spec fn prepares(phase: HostPhase) -> bool {
    match phase {
        HostPhase::MakingEnv | HostPhase::MakingOut | HostPhase::ReadingEnvMode
        | HostPhase::SharingEnv | HostPhase::ReadingOutMode | HostPhase::SharingOut
        | HostPhase::Writing | HostPhase::Spawning => true,
        _ => false,
    }
}

/// What the command of a step waits for.
pub open spec fn host_awaits(step: HostStep, event: HostEvent) -> bool {
    match step.phase {
        HostPhase::Attaching => event matches HostEvent::Attached { now, .. } && now + span(
            step.budget.step_timeout,
        ) <= u128::MAX,
        HostPhase::Spawning => event is Ended || event is Missing,
        HostPhase::Looking => event is Looked,
        HostPhase::Joining => event is Joined,
        _ => event is Ended,
    }
}

/// The failure of a step whose command exited, where the command has to succeed.
pub open spec fn exit_failure(name: Seq<char>, code: Option<i32>, status: Seq<char>) -> Option<
    Seq<char>,
> {
    if code == Some(0i32) {
        None
    } else {
        Some("host step '"@ + name + "' exited with status: "@ + status)
    }
}

/// The failure of a step whose streams have ended, where what they brought is judged.
pub open spec fn lost_stream(stdout: Option<Vec<u8>>, stderr: Option<Vec<u8>>) -> Option<
    Seq<char>,
> {
    if stdout is None {
        Some("stdout capture mutex poisoned"@)
    } else if stderr is None {
        Some("stderr capture mutex poisoned"@)
    } else {
        None
    }
}

/// What a stream brought, if it was not lost.
pub open spec fn brought(stream: Option<Vec<u8>>) -> Seq<u8> {
    match stream {
        Some(bytes) => bytes@,
        None => seq![],
    }
}

/// The state after a look at the command. `judged` tells whether its outcome is judged later.
pub open spec fn after_look(
    name: Seq<char>,
    budget: StepExecutionBudget,
    judged: bool,
    state: HostState,
    look: HostLook,
    now: u128,
) -> HostState {
    match look {
        HostLook::Exited { code, status } => HostState {
            phase: HostPhase::Joining,
            exit: match code {
                Some(n) => n,
                None => -1i32,
            },
            failure: if judged {
                None
            } else {
                exit_failure(name, code, status@)
            },
            ..state
        },
        HostLook::Running => match overrun(name, budget, state.step_deadline as u128, now) {
            Some(e) => HostState { phase: HostPhase::Killing, failure: Some(e), ..state },
            None => HostState { phase: HostPhase::Polling, ..state },
        },
    }
}

/// The state in which a step ends at once with an error.
pub open spec fn stops_with(state: HostState, error: Seq<char>) -> HostState {
    HostState { phase: HostPhase::Finished, failure: Some(error), ..state }
}

/// The state that follows when `event` happens. `judged` tells whether the outcome of the
/// command is judged later.
pub open spec fn host_next(
    name: Seq<char>,
    budget: StepExecutionBudget,
    judged: bool,
    state: HostState,
    event: HostEvent,
) -> HostState {
    let on = HostState { phase: phase_behind(state.phase), ..state };
    match state.phase {
        HostPhase::Opening | HostPhase::Polling => match event->Ended_0 {
            Err(e) => stops_with(state, e@),
            Ok(()) => on,
        },
        HostPhase::Spawning if event is Missing => if state.fallback {
            HostState { fallback: false, ..state }
        } else {
            stops_with(
                state,
                in_context(host_trouble(trouble_in(state.phase), name), event->Missing_0@),
            )
        },
        HostPhase::Attaching => match event->Attached_result {
            Err(e) => stops_with(state, e@),
            Ok(()) => HostState {
                step_deadline: event->Attached_now + span(budget.step_timeout),
                ..on
            },
        },
        HostPhase::Looking => match event->Looked_poll {
            Err(e) => stops_with(state, e@),
            Ok(()) => match event->Looked_look {
                Err(e) => stops_with(
                    state,
                    in_context(host_trouble(trouble_in(state.phase), name), e@),
                ),
                Ok(look) => after_look(name, budget, judged, state, look, event->Looked_now),
            },
        },
        HostPhase::Joining => HostState {
            stdout: brought(event->Joined_stdout),
            stderr: brought(event->Joined_stderr),
            failure: if judged && state.failure is None {
                lost_stream(event->Joined_stdout, event->Joined_stderr)
            } else {
                state.failure
            },
            ..on
        },
        _ => if prepares(state.phase) {
            match event->Ended_0 {
                Err(e) => stops_with(
                    state,
                    in_context(host_trouble(trouble_in(state.phase), name), e@),
                ),
                Ok(()) => on,
            }
        } else {
            on
        },
    }
}

/// The interpreter that a command is started under.
pub open spec fn interpreter(step: HostStep) -> Seq<Seq<char>> {
    match step.fallback {
        Some(other) if step.fell_back => texts(other@),
        _ => texts(step.template@),
    }
}

/// What the command of a step does in a state, before it is done.
pub open spec fn host_acts<T>(step: HostStep, action: HostAction<T>) -> bool {
    match step.phase {
        HostPhase::Start => false,
        HostPhase::MakingEnv => action matches HostAction::CreateFile { path } && path@
            == step.env_path@,
        HostPhase::MakingOut => action matches HostAction::CreateFile { path } && path@
            == step.out_path@,
        HostPhase::ReadingEnvMode => action matches HostAction::ReadMode { path } && path@
            == step.env_path@,
        HostPhase::SharingEnv => action matches HostAction::SetMode { path, mode } && path@
            == step.env_path@ && mode == SHARED_MODE,
        HostPhase::ReadingOutMode => action matches HostAction::ReadMode { path } && path@
            == step.out_path@,
        HostPhase::SharingOut => action matches HostAction::SetMode { path, mode } && path@
            == step.out_path@ && mode == SHARED_MODE,
        HostPhase::Writing => action matches HostAction::WriteFile { path, body } && path@
            == step.script@ && body@ == step.body@,
        HostPhase::Opening => action is OpenLog,
        HostPhase::Spawning => action matches HostAction::Spawn { argv, env } && texts(argv@)
            == with_script(interpreter(step), step.script@) && pairs(env@) == pairs(
            step.env@,
        ),
        HostPhase::Attaching => action is Attach,
        HostPhase::Looking => action is Look,
        HostPhase::Polling => action is Poll,
        HostPhase::Pausing => action matches HostAction::Pause { time } && time == LOOK_PAUSE,
        HostPhase::Killing => action is Kill,
        HostPhase::Joining => action is Join,
        HostPhase::Removing => action matches HostAction::RemoveFile { path } && path@
            == step.script@,
        HostPhase::Finished => action is Done,
    }
}

/// Whether `other` is the same command, however far it has come.
pub open spec fn same_command(step: HostStep, other: HostStep) -> bool {
    other == (HostStep {
        phase: other.phase,
        fell_back: other.fell_back,
        step_deadline: other.step_deadline,
        exit: other.exit,
        stdout: other.stdout,
        stderr: other.stderr,
        failure: other.failure,
        ..step
    })
}

fn trouble(what: &str, name: &str, error: &PlanError) -> (e: PlanError)
    ensures
        e@ == in_context(host_trouble(what@, name@), error@),
{
    let context = cat4(what, " host step '", name, "'");
    error.within(context.as_str())
}

fn trouble_text(phase: HostPhase) -> (r: &'static str)
    ensures
        r@ == trouble_in(phase),
{
    match phase {
        HostPhase::MakingEnv => "failed to create env file for",
        HostPhase::MakingOut => "failed to create out file for",
        HostPhase::ReadingEnvMode => "failed to stat env file for",
        HostPhase::SharingEnv => "failed to chmod env file for",
        HostPhase::ReadingOutMode => "failed to stat out file for",
        HostPhase::SharingOut => "failed to chmod out file for",
        HostPhase::Writing => "failed to write script file for",
        HostPhase::Spawning => "failed to spawn",
        _ => "failed to wait for",
    }
}

fn phase_after(phase: HostPhase) -> (r: HostPhase)
    ensures
        r == phase_behind(phase),
{
    match phase {
        HostPhase::Start => HostPhase::MakingEnv,
        HostPhase::MakingEnv => HostPhase::MakingOut,
        HostPhase::MakingOut => HostPhase::ReadingEnvMode,
        HostPhase::ReadingEnvMode => HostPhase::SharingEnv,
        HostPhase::SharingEnv => HostPhase::ReadingOutMode,
        HostPhase::ReadingOutMode => HostPhase::SharingOut,
        HostPhase::SharingOut => HostPhase::Writing,
        HostPhase::Writing => HostPhase::Opening,
        HostPhase::Opening => HostPhase::Spawning,
        HostPhase::Spawning => HostPhase::Attaching,
        HostPhase::Attaching => HostPhase::Looking,
        HostPhase::Looking => HostPhase::Joining,
        HostPhase::Polling => HostPhase::Pausing,
        HostPhase::Pausing => HostPhase::Looking,
        HostPhase::Killing => HostPhase::Joining,
        HostPhase::Joining => HostPhase::Removing,
        HostPhase::Removing => HostPhase::Finished,
        HostPhase::Finished => HostPhase::Finished,
    }
}

fn is_preparation(phase: HostPhase) -> (r: bool)
    ensures
        r == prepares(phase),
{
    match phase {
        HostPhase::MakingEnv | HostPhase::MakingOut | HostPhase::ReadingEnvMode
        | HostPhase::SharingEnv | HostPhase::ReadingOutMode | HostPhase::SharingOut
        | HostPhase::Writing | HostPhase::Spawning => true,
        _ => false,
    }
}

fn owned(stream: Option<Vec<u8>>) -> (r: Vec<u8>)
    ensures
        r@ == brought(stream),
{
    match stream {
        Some(bytes) => bytes,
        None => {
            let none: Vec<u8> = Vec::new();
            assert(none@ =~= seq![]);
            none
        },
    }
}

impl HostStep {
    /// A command that was not started.
    pub fn new(
        name: String,
        body: String,
        template: Vec<String>,
        fallback: Option<Vec<String>>,
        env: Vec<(String, String)>,
        env_path: String,
        out_path: String,
        script: String,
        budget: StepExecutionBudget,
    ) -> (r: HostStep)
        ensures
            r.name == name,
            r.body == body,
            r.template == template,
            r.fallback == fallback,
            !r.fell_back,
            r.env == env,
            r.env_path == env_path,
            r.out_path == out_path,
            r.script == script,
            r.budget == budget,
            r.phase == HostPhase::Start,
            r.failure is None,
    {
        HostStep {
            name,
            body,
            template,
            fallback,
            env,
            env_path,
            out_path,
            script,
            budget,
            phase: HostPhase::Start,
            fell_back: false,
            step_deadline: 0,
            exit: 0,
            stdout: Vec::new(),
            stderr: Vec::new(),
            failure: None,
        }
    }

    fn stop_with(&mut self, error: PlanError)
        ensures
            final(self)@ == stops_with(old(self)@, error@),
            same_command(*old(self), *final(self)),
    {
        self.failure = Some(error);
        self.phase = HostPhase::Finished;
    }

    fn look(&mut self, judged: bool, look: HostLook, now: u128)
        requires
            old(self).phase == HostPhase::Looking,
        ensures
            final(self)@ == after_look(
                old(self).name@,
                old(self).budget,
                judged,
                old(self)@,
                look,
                now,
            ),
            same_command(*old(self), *final(self)),
    {
        match look {
            HostLook::Exited { code, status } => {
                self.exit = match code {
                    Some(n) => n,
                    None => -1,
                };
                let good = match code {
                    Some(n) => n == 0,
                    None => false,
                };
                self.failure = if judged || good {
                    None
                } else {
                    Some(
                        PlanError::new(
                            cat4(
                                "host step '",
                                self.name.as_str(),
                                "' exited with status: ",
                                status.as_str(),
                            ),
                        ),
                    )
                };
                self.phase = HostPhase::Joining;
            },
            HostLook::Running => match timeout_cause(
                now,
                self.step_deadline,
                self.budget.overall_deadline,
            ) {
                Some(WaitResult::StepTimeout) => {
                    let n = decimal_u64(self.budget.step_timeout);
                    self.failure = Some(
                        PlanError::new(
                            cat5(
                                "host step '",
                                self.name.as_str(),
                                "' timed out after ",
                                n.as_str(),
                                "s",
                            ),
                        ),
                    );
                    self.phase = HostPhase::Killing;
                },
                Some(WaitResult::OverallTimeout) => {
                    self.failure = Some(overall_timeout_error(self.budget.overall_timeout));
                    self.phase = HostPhase::Killing;
                },
                None => {
                    self.phase = HostPhase::Polling;
                },
            },
        }
    }

    fn join(&mut self, judged: bool, stdout: Option<Vec<u8>>, stderr: Option<Vec<u8>>)
        requires
            old(self).phase == HostPhase::Joining,
        ensures
            final(self)@ == host_next(
                old(self).name@,
                old(self).budget,
                judged,
                old(self)@,
                HostEvent::Joined { stdout, stderr },
            ),
            same_command(*old(self), *final(self)),
    {
        if judged && self.failure.is_none() {
            if stdout.is_none() {
                self.failure = Some(PlanError::text("stdout capture mutex poisoned"));
            } else if stderr.is_none() {
                self.failure = Some(PlanError::text("stderr capture mutex poisoned"));
            }
        }
        self.stdout = owned(stdout);
        self.stderr = owned(stderr);
        self.phase = HostPhase::Removing;
    }

    /// Takes in what happened.
    fn go_on(&mut self, judged: bool, event: HostEvent)
        requires
            host_awaits(*old(self), event),
        ensures
            final(self)@ == host_next(
                old(self).name@,
                old(self).budget,
                judged,
                old(self)@,
                event,
            ),
            same_command(*old(self), *final(self)),
    {
        let phase = self.phase;
        match event {
            HostEvent::Attached { result, now } => match result {
                Err(e) => self.stop_with(e),
                Ok(()) => {
                    self.step_deadline = deadline(now, self.budget.step_timeout);
                    self.phase = phase_after(phase);
                },
            },
            HostEvent::Looked { poll, look, now } => match poll {
                Err(e) => self.stop_with(e),
                Ok(()) => match look {
                    Err(e) => {
                        let error = trouble(trouble_text(phase), self.name.as_str(), &e);
                        self.stop_with(error)
                    },
                    Ok(look) => self.look(judged, look, now),
                },
            },
            HostEvent::Joined { stdout, stderr } => self.join(judged, stdout, stderr),
            HostEvent::Missing(e) => if self.fallback.is_some() && !self.fell_back {
                self.fell_back = true;
            } else {
                let error = trouble(trouble_text(phase), self.name.as_str(), &e);
                self.stop_with(error)
            },
            HostEvent::Ended(result) => match result {
                Ok(()) => {
                    self.phase = phase_after(phase);
                },
                Err(e) => if is_preparation(phase) {
                    let error = trouble(trouble_text(phase), self.name.as_str(), &e);
                    self.stop_with(error)
                } else {
                    match phase {
                        HostPhase::Opening | HostPhase::Polling => self.stop_with(e),
                        _ => {
                            self.phase = phase_after(phase);
                        },
                    }
                },
            },
        }
    }

    /// What to do in the phase that the command is in, unless it is done.
    fn act<T>(&self) -> (action: Option<HostAction<T>>)
        requires
            self.phase != HostPhase::Start,
        ensures
            match action {
                Some(a) => self.phase != HostPhase::Finished && host_acts(*self, a),
                None => self.phase == HostPhase::Finished,
            },
    {
        match self.phase {
            HostPhase::MakingEnv => Some(HostAction::CreateFile { path: self.env_path.clone() }),
            HostPhase::MakingOut => Some(HostAction::CreateFile { path: self.out_path.clone() }),
            HostPhase::ReadingEnvMode => Some(
                HostAction::ReadMode { path: self.env_path.clone() },
            ),
            HostPhase::SharingEnv => Some(
                HostAction::SetMode { path: self.env_path.clone(), mode: SHARED_MODE },
            ),
            HostPhase::ReadingOutMode => Some(
                HostAction::ReadMode { path: self.out_path.clone() },
            ),
            HostPhase::SharingOut => Some(
                HostAction::SetMode { path: self.out_path.clone(), mode: SHARED_MODE },
            ),
            HostPhase::Writing => Some(
                HostAction::WriteFile { path: self.script.clone(), body: self.body.clone() },
            ),
            HostPhase::Opening => Some(HostAction::OpenLog),
            HostPhase::Spawning => {
                let argv = match &self.fallback {
                    Some(other) if self.fell_back => place_script(
                        other.as_slice(),
                        self.script.as_str(),
                    ),
                    _ => place_script(self.template.as_slice(), self.script.as_str()),
                };
                let env = cloned_pairs(&self.env);
                Some(HostAction::Spawn { argv, env })
            },
            HostPhase::Attaching => Some(HostAction::Attach),
            HostPhase::Looking => Some(HostAction::Look),
            HostPhase::Polling => Some(HostAction::Poll),
            HostPhase::Pausing => Some(HostAction::Pause { time: LOOK_PAUSE }),
            HostPhase::Killing => Some(HostAction::Kill),
            HostPhase::Joining => Some(HostAction::Join),
            HostPhase::Removing => Some(HostAction::RemoveFile { path: self.script.clone() }),
            HostPhase::Start | HostPhase::Finished => None,
        }
    }
}

/// Runs the command of a step on the host that has to succeed: takes what happened since the
/// last action and says what to do next.
///
/// The files that the script may write to are made, and opened to everyone, before it is
/// started under its interpreter, or under the other one where that is not there. While it
/// runs it is looked at now and then, and ended when
/// its time or that of the whole run is over. The script is removed however the command
/// ended.
pub fn run_host_step(step: &mut HostStep, event: HostEvent) -> (action: HostAction<()>)
    requires
        host_awaits(*old(step), event),
    ensures
        final(step)@ == host_next(old(step).name@, old(step).budget, false, old(step)@, event),
        same_command(*old(step), *final(step)),
        host_acts(*final(step), action),
        action matches HostAction::Done(r) ==> outcome(r, final(step)@.failure),
{
    step.go_on(false, event);
    match step.act() {
        Some(action) => action,
        None => match &step.failure {
            Some(e) => HostAction::Done(Err(e.clone())),
            None => HostAction::Done(Ok(())),
        },
    }
}

/// Runs the command of a step on the host whose outcome is judged later, as
/// [`run_host_step`] does: whatever code it exits with, it gives the code and what the
/// command wrote. The code of a command that a signal ended is minus one.
pub fn run_host_step_capturing(step: &mut HostStep, event: HostEvent) -> (action: HostAction<
    (StepCapture, i32),
>)
    requires
        host_awaits(*old(step), event),
    ensures
        final(step)@ == host_next(old(step).name@, old(step).budget, true, old(step)@, event),
        same_command(*old(step), *final(step)),
        host_acts(*final(step), action),
        action matches HostAction::Done(r) ==> {
            &&& outcome(r, final(step)@.failure)
            &&& r matches Ok(done) ==> {
                &&& done.0.stdout@ == lossy_text(final(step)@.stdout)
                &&& done.0.stderr@ == lossy_text(final(step)@.stderr)
                &&& done.1 == final(step)@.exit
            }
        },
{
    step.go_on(true, event);
    match step.act() {
        Some(action) => action,
        None => match &step.failure {
            Some(e) => HostAction::Done(Err(e.clone())),
            None => {
                let capture = StepCapture {
                    stdout: text_of_bytes(step.stdout.as_slice()),
                    stderr: text_of_bytes(step.stderr.as_slice()),
                };
                HostAction::Done(Ok((capture, step.exit)))
            },
        },
    }
}

// ---------------------------------------------------------------------------
// What holds of every command
// ---------------------------------------------------------------------------

/// How much has to go well before a phase.
pub open spec fn stage(phase: HostPhase) -> nat {
    match phase {
        HostPhase::Start => 0,
        HostPhase::MakingEnv => 1,
        HostPhase::MakingOut => 2,
        HostPhase::ReadingEnvMode => 3,
        HostPhase::SharingEnv => 4,
        HostPhase::ReadingOutMode => 5,
        HostPhase::SharingOut => 6,
        HostPhase::Writing => 7,
        HostPhase::Opening => 8,
        HostPhase::Spawning => 9,
        _ => 10,
    }
}

/// A command is started only when all that it needs is there: until then, what goes well is
/// followed by the next preparation, and what fails ends the step.
pub proof fn commands_start_prepared(
    name: Seq<char>,
    budget: StepExecutionBudget,
    judged: bool,
    state: HostState,
    result: Result<(), PlanError>,
)
    requires
        stage(state.phase) < 10,
    ensures
        ({
            let after = host_next(name, budget, judged, state, HostEvent::Ended(result));
            if state.phase == HostPhase::Start || result is Ok {
                stage(after.phase) == stage(state.phase) + 1 && after.failure == state.failure
            } else {
                after.phase == HostPhase::Finished && after.failure is Some
            }
        }),
{
}

/// Where the interpreter of a command is not there, the other one is tried, and once only.
pub proof fn the_other_interpreter_is_tried_once(
    name: Seq<char>,
    budget: StepExecutionBudget,
    judged: bool,
    state: HostState,
    error: PlanError,
)
    requires
        state.phase == HostPhase::Spawning,
    ensures
        ({
            let after = host_next(name, budget, judged, state, HostEvent::Missing(error));
            let again = host_next(name, budget, judged, after, HostEvent::Missing(error));
            if state.fallback {
                &&& after.phase == HostPhase::Spawning
                &&& after.failure == state.failure
                &&& again.phase == HostPhase::Finished
                &&& again.failure is Some
            } else {
                after.phase == HostPhase::Finished && after.failure is Some
            }
        }),
{
}

/// A command that is found running when its time or that of the whole run is over is ended,
/// its script is removed, and the step fails, whatever happens meanwhile.
pub proof fn overdue_commands_are_ended(
    name: Seq<char>,
    budget: StepExecutionBudget,
    judged: bool,
    state: HostState,
    now: u128,
    killed: Result<(), PlanError>,
    stdout: Option<Vec<u8>>,
    stderr: Option<Vec<u8>>,
    removed: Result<(), PlanError>,
)
    requires
        state.phase == HostPhase::Looking,
        0 <= state.step_deadline <= u128::MAX,
        now >= state.step_deadline || now >= budget.overall_deadline,
    ensures
        ({
            let look = HostEvent::Looked { poll: Ok(()), look: Ok(HostLook::Running), now };
            let overdue = host_next(name, budget, judged, state, look);
            let ended = host_next(name, budget, judged, overdue, HostEvent::Ended(killed));
            let joined = host_next(
                name,
                budget,
                judged,
                ended,
                HostEvent::Joined { stdout, stderr },
            );
            let done = host_next(name, budget, judged, joined, HostEvent::Ended(removed));
            &&& overdue.phase == HostPhase::Killing
            &&& overdue.failure is Some
            &&& ended.phase == HostPhase::Joining
            &&& joined.phase == HostPhase::Removing
            &&& done.phase == HostPhase::Finished
            &&& done.failure == overdue.failure
        }),
{
}

/// The script of a command that exited is removed, whatever code it exited with; and a
/// command that has to succeed succeeds exactly if that code is zero.
pub proof fn exited_commands_are_tidied_up(
    name: Seq<char>,
    budget: StepExecutionBudget,
    state: HostState,
    now: u128,
    code: Option<i32>,
    status: String,
    stdout: Option<Vec<u8>>,
    stderr: Option<Vec<u8>>,
    removed: Result<(), PlanError>,
)
    requires
        state.phase == HostPhase::Looking,
    ensures
        ({
            let look = HostEvent::Looked {
                poll: Ok(()),
                look: Ok(HostLook::Exited { code, status }),
                now,
            };
            let exited = host_next(name, budget, false, state, look);
            let joined = host_next(
                name,
                budget,
                false,
                exited,
                HostEvent::Joined { stdout, stderr },
            );
            let done = host_next(name, budget, false, joined, HostEvent::Ended(removed));
            &&& joined.phase == HostPhase::Removing
            &&& done.phase == HostPhase::Finished
            &&& done.failure is None <==> code == Some(0i32)
        }),
{
}

} // verus!
