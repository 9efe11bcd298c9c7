//! Steps that run on the host only, to prepare a publication.

use vstd::prelude::*;
use vstd::string::*;

use crate::error::{PlanError, in_context, outcome};
use crate::flow::{FlowNote, NoteView, no_notes, note_views, one_note, two_notes};
use crate::phases::{log_dir_of, step_log_dir};
use crate::run::{RunAction, RunEvent, StepRun, acts, awaits, run_next, run_run_step, run_state};
use crate::scope::{
    InheritedRef, RefScope, RuleView, ref_views, resolve_run_step_output_refs, resolved_text,
};
use crate::step::{RunStep, StepCondition, TestStep, shell_template};
use crate::strings::{cat2, cat5, decimal_u64};
use crate::text::{decimal, opt_text};

verus! {

/// Seconds that all steps together may take: far more than they need.
pub const LOCAL_OVERALL_TIMEOUT_SECS: u64 = 86_400;

/// Seconds that a step may take unless it says otherwise.
pub const LOCAL_STEP_TIMEOUT_SECS: u64 = 300;

/// What the run of local steps is doing.
#[derive(Clone, Copy, Debug, PartialEq, Eq, Structural)]
pub enum LocalMode {
    Start,
    /// The directory for log files is made.
    MakingDir,
    /// It goes on to the next step.
    Ready,
    /// The script of the step runs.
    Running,
    Finished,
}

/// The run of local steps.
#[derive(Debug)]
pub struct LocalSteps {
    /// The directory that paths are taken from.
    pub context: String,
    pub steps: Vec<TestStep>,
    /// The step whose turn it is.
    pub index: usize,
    /// The variables that the steps have set.
    pub env: Vec<(String, String)>,
    pub mode: LocalMode,
}

/// What to do next.
#[derive(Debug, PartialEq, Eq)]
pub enum LocalAction {
    MakeDir { path: String },
    /// Go on.
    Proceed,
    /// Run the current step with that script.
    Run { display: String, body: String },
    Done(Result<(), PlanError>),
}

/// What to show and then to do.
#[derive(Debug)]
pub struct LocalOutput {
    pub notes: Vec<FlowNote>,
    pub action: LocalAction,
}

/// Whether a step runs: it does unless it was decided otherwise when it was loaded.
pub open spec fn enabled(step: RunStep) -> bool {
    step.condition != StepCondition::Resolved(false)
}

impl RunStep {
    /// Whether the step runs: it does unless it was decided otherwise when it was
    /// loaded.
    pub fn condition_enabled(&self) -> (r: bool)
        ensures
            r == enabled(*self),
    {
        match &self.condition {
            StepCondition::Resolved(b) => *b,
            _ => true,
        }
    }
}

impl LocalSteps {
    /// A run that has not begun.
    pub fn new(context: &str, steps: Vec<TestStep>) -> (r: LocalSteps)
        ensures
            r.context@ == context@,
            r.steps == steps,
            r.index == 0,
            r.env@.len() == 0,
            r.mode == LocalMode::Start,
            r.wf(),
    {
        LocalSteps {
            context: context.to_owned(),
            steps,
            index: 0,
            env: Vec::new(),
            mode: LocalMode::Start,
        }
    }

    /// The step that runs is there, and is a script.
    pub open spec fn wf(self) -> bool {
        &&& self.index <= self.steps@.len()
        &&& self.mode == LocalMode::Running ==> self.index < self.steps@.len()
            && self.current() is Run
    }

    /// The step whose turn it is.
    pub open spec fn current(self) -> TestStep {
        self.steps@[self.index as int]
    }

    /// The scope of the current step: the plan, without any fragment around it.
    pub open spec fn scope(self) -> RefScope {
        RefScope {
            consumer: self.current()->Run_0.name@,
            scope: self.steps@,
            prior: self.steps@.take(self.index as int),
            inherited: seq![],
            rule: RuleView::Fragment(None),
        }
    }

    /// The note that the current step begins.
    pub open spec fn title(self) -> NoteView {
        NoteView::Title {
            display: decimal(self.index as nat),
            name: self.current().label(),
            id: self.current().shown_id(),
        }
    }

    /// The note that the current step is skipped.
    pub open spec fn skipped(self) -> NoteView {
        NoteView::Skipped {
            display: decimal(self.index as nat),
            name: self.current().label(),
            id: self.current().shown_id(),
        }
    }

    /// The note that the current step has ended.
    pub open spec fn status(self, ok: bool) -> NoteView {
        NoteView::Status {
            display: decimal(self.index as nat),
            name: self.current().label(),
            id: self.current().shown_id(),
            ok,
        }
    }

    /// The message that the current step is not a script.
    pub open spec fn refusal(self) -> Seq<char> {
        "publish step "@ + decimal(self.index as nat) + " ('"@ + self.current().label()
            + "'): only run steps are supported in the publish prepare phase"@
    }

    /// Whether `other` is in the same place in the same plan, with the same variables,
    /// `ahead` steps on.
    pub open spec fn ahead_by(self, other: LocalSteps, ahead: int) -> bool {
        &&& other.context == self.context
        &&& other.steps == self.steps
        &&& other.env == self.env
        &&& other.index == self.index + ahead
    }
}

/// Whether the run ends, with that error if there is one.
pub open spec fn local_ends(
    post: LocalSteps,
    notes: Seq<NoteView>,
    action: LocalAction,
    shown: Seq<NoteView>,
    error: Option<Seq<char>>,
) -> bool {
    &&& post.mode == LocalMode::Finished
    &&& notes == shown
    &&& action matches LocalAction::Done(r) && outcome(r, error)
}

/// What the run does with the next step.
pub open spec fn local_step(
    pre: LocalSteps,
    post: LocalSteps,
    notes: Seq<NoteView>,
    action: LocalAction,
) -> bool {
    let none = Seq::<NoteView>::empty();
    if pre.index == pre.steps@.len() {
        pre.ahead_by(post, 0) && local_ends(post, notes, action, none, None)
    } else {
        match pre.current() {
            TestStep::Run(run) => if !enabled(run) {
                &&& pre.ahead_by(post, 1)
                &&& post.mode == LocalMode::Ready
                &&& notes == seq![pre.skipped()]
                &&& action is Proceed
            } else {
                &&& pre.ahead_by(post, 0)
                &&& match resolved_text(pre.scope(), run.run@) {
                    Ok(text) => {
                        &&& post.mode == LocalMode::Running
                        &&& notes == seq![pre.title()]
                        &&& action matches LocalAction::Run { display, body } && display@
                            == decimal(pre.index as nat) && body@ == text
                    },
                    Err(e) => local_ends(
                        post,
                        notes,
                        action,
                        seq![pre.title(), pre.status(false)],
                        Some(e),
                    ),
                }
            },
            _ => pre.ahead_by(post, 0) && local_ends(
                post,
                notes,
                action,
                none,
                Some(pre.refusal()),
            ),
        }
    }
}

/// What the run does when the last action ended as `last` says.
pub open spec fn local_moves(
    pre: LocalSteps,
    last: Result<(), PlanError>,
    post: LocalSteps,
    notes: Seq<NoteView>,
    action: LocalAction,
) -> bool {
    let none = Seq::<NoteView>::empty();
    match pre.mode {
        LocalMode::Start => pre.ahead_by(post, 0) && if pre.steps@.len() == 0 {
            local_ends(post, notes, action, none, None)
        } else {
            &&& post.mode == LocalMode::MakingDir
            &&& notes == none
            &&& action matches LocalAction::MakeDir { path } && path@ == log_dir_of(pre.context@)
        },
        LocalMode::MakingDir => pre.ahead_by(post, 0) && match last {
            Err(e) => local_ends(
                post,
                notes,
                action,
                none,
                Some(
                    in_context(
                        "cannot create publish step log dir: "@ + log_dir_of(pre.context@),
                        e@,
                    ),
                ),
            ),
            Ok(()) => post.mode == LocalMode::Ready && notes == none && action is Proceed,
        },
        LocalMode::Ready => local_step(pre, post, notes, action),
        LocalMode::Running => match last {
            Ok(()) => {
                &&& pre.ahead_by(post, 1)
                &&& post.mode == LocalMode::Ready
                &&& notes == seq![pre.status(true)]
                &&& action is Proceed
            },
            Err(e) => pre.ahead_by(post, 0) && local_ends(
                post,
                notes,
                action,
                seq![pre.status(false)],
                Some(e@),
            ),
        },
        LocalMode::Finished => false,
    }
}

impl LocalSteps {
    fn note_parts(&self) -> (r: (String, String, Option<String>))
        requires
            self.index < self.steps@.len(),
        ensures
            r.0@ == decimal(self.index as nat),
            r.1@ == self.current().label(),
            opt_text(r.2) == self.current().shown_id(),
    {
        let step = &self.steps[self.index];
        let id = match step.display_id() {
            Some(id) => Some(id.to_owned()),
            None => None,
        };
        (decimal_u64(self.index as u64), step.display_name().to_owned(), id)
    }

    fn title_note(&self) -> (r: FlowNote)
        requires
            self.index < self.steps@.len(),
        ensures
            r@ == self.title(),
    {
        let (display, name, id) = self.note_parts();
        FlowNote::Title { display, name, id }
    }

    fn skipped_note(&self) -> (r: FlowNote)
        requires
            self.index < self.steps@.len(),
        ensures
            r@ == self.skipped(),
    {
        let (display, name, id) = self.note_parts();
        FlowNote::Skipped { display, name, id }
    }

    fn status_note(&self, ok: bool) -> (r: FlowNote)
        requires
            self.index < self.steps@.len(),
        ensures
            r@ == self.status(ok),
    {
        let (display, name, id) = self.note_parts();
        FlowNote::Status { display, name, id, ok }
    }

    fn next_step(&mut self) -> (out: LocalOutput)
        requires
            old(self).wf(),
            old(self).mode == LocalMode::Ready,
        ensures
            final(self).wf(),
            local_step(*old(self), *final(self), note_views(out.notes@), out.action),
    {
        let count: usize = self.steps.len();
        if self.index == count {
            self.mode = LocalMode::Finished;
            return LocalOutput { notes: no_notes(), action: LocalAction::Done(Ok(())) };
        }
        let none: Vec<InheritedRef> = Vec::new();
        assert(ref_views(none@) =~= seq![]);
        let resolved = match &self.steps[self.index] {
            TestStep::Run(run) => {
                if !run.condition_enabled() {
                    let note = self.skipped_note();
                    assert(self.index < count);
                    self.index = self.index + 1;
                    return LocalOutput { notes: one_note(note), action: LocalAction::Proceed };
                }
                resolve_run_step_output_refs(
                    run,
                    self.steps.as_slice(),
                    self.index,
                    None,
                    &none,
                )
            },
            step => {
                let shown = decimal_u64(self.index as u64);
                let message = cat5(
                    "publish step ",
                    shown.as_str(),
                    " ('",
                    step.display_name(),
                    "'): only run steps are supported in the publish prepare phase",
                );
                self.mode = LocalMode::Finished;
                return LocalOutput {
                    notes: no_notes(),
                    action: LocalAction::Done(Err(PlanError::new(message))),
                };
            },
        };
        let title = self.title_note();
        match resolved {
            Ok(body) => {
                let display = decimal_u64(self.index as u64);
                self.mode = LocalMode::Running;
                LocalOutput { notes: one_note(title), action: LocalAction::Run { display, body } }
            },
            Err(e) => {
                let status = self.status_note(false);
                self.mode = LocalMode::Finished;
                LocalOutput {
                    notes: two_notes(title, status),
                    action: LocalAction::Done(Err(e)),
                }
            },
        }
    }
}

/// Runs steps on the host, one after another: takes how the last action ended, and says
/// what to show and what to do next. Only scripts can run; the first step that fails
/// ends the run.
pub fn run_local_steps(state: &mut LocalSteps, last: Result<(), PlanError>) -> (out: LocalOutput)
    requires
        old(state).wf(),
        old(state).mode != LocalMode::Finished,
    ensures
        final(state).wf(),
        local_moves(*old(state), last, *final(state), note_views(out.notes@), out.action),
{
    match state.mode {
        LocalMode::Start => {
            if state.steps.len() == 0 {
                state.mode = LocalMode::Finished;
                return LocalOutput { notes: no_notes(), action: LocalAction::Done(Ok(())) };
            }
            state.mode = LocalMode::MakingDir;
            LocalOutput {
                notes: no_notes(),
                action: LocalAction::MakeDir { path: step_log_dir(state.context.as_str()) },
            }
        },
        LocalMode::MakingDir => match last {
            Err(e) => {
                let dir = step_log_dir(state.context.as_str());
                let context = cat2("cannot create publish step log dir: ", dir.as_str());
                state.mode = LocalMode::Finished;
                LocalOutput {
                    notes: no_notes(),
                    action: LocalAction::Done(Err(e.within(context.as_str()))),
                }
            },
            Ok(()) => {
                state.mode = LocalMode::Ready;
                LocalOutput { notes: no_notes(), action: LocalAction::Proceed }
            },
        },
        LocalMode::Ready | LocalMode::Finished => state.next_step(),
        LocalMode::Running => {
            let note = state.status_note(last.is_ok());
            match last {
                Ok(()) => {
                    let count: usize = state.steps.len();
                    assert(state.index < count);
                    state.index = state.index + 1;
                    state.mode = LocalMode::Ready;
                    LocalOutput { notes: one_note(note), action: LocalAction::Proceed }
                },
                Err(e) => {
                    state.mode = LocalMode::Finished;
                    LocalOutput { notes: one_note(note), action: LocalAction::Done(Err(e)) }
                },
            }
        },
    }
}

/// Takes what happened in the run of the current step.
pub fn run_local_step(state: &mut LocalSteps, run: &mut StepRun, event: RunEvent) -> (action:
    RunAction)
    requires
        old(state).wf(),
        old(state).mode == LocalMode::Running,
        awaits(old(state).current()->Run_0, old(run).phase, event),
        shell_template(opt_text(old(state).current()->Run_0.shell)) is Ok,
    ensures
        final(state).wf(),
        final(state).mode == old(state).mode,
        final(state).context == old(state).context,
        final(state).index == old(state).index,
        final(state).steps@.len() == old(state).steps@.len(),
        forall|k: int|
            0 <= k < old(state).steps@.len() && k != old(state).index
                ==> #[trigger] final(state).steps@[k] == old(state).steps@[k],
        ({
            let was = old(state).current()->Run_0;
            let is = final(state).current()->Run_0;
            &&& final(state).current() is Run
            &&& is == (RunStep { captured_outputs: is.captured_outputs, ..was })
            &&& run_state(*final(run), is, final(state).env@) == run_next(
                old(run).place,
                was,
                run_state(*old(run), was, old(state).env@),
                event,
            )
            &&& acts(*old(run), was, run_state(*final(run), is, final(state).env@), action)
        }),
        final(run).place == old(run).place,
        final(run).body == old(run).body,
        final(run).local_script == old(run).local_script,
        final(run).remote_script == old(run).remote_script,
        final(run).env_path == old(run).env_path,
        final(run).out_path == old(run).out_path,
{
    let mut action = RunAction::Done(Ok(()));
    let i: usize = state.index;
    match &mut state.steps[i] {
        TestStep::Run(step) => {
            action = run_run_step(run, step, &mut state.env, event);
        },
        _ => {},
    }
    action
}

/// Local steps run in order and stop at the first failure: a move goes on by one step at
/// most, and it begins a step only if the one before it has ended well.
pub proof fn local_steps_stop_at_a_failure(
    pre: LocalSteps,
    last: Result<(), PlanError>,
    post: LocalSteps,
    notes: Seq<NoteView>,
    action: LocalAction,
)
    requires
        pre.wf(),
        local_moves(pre, last, post, notes, action),
    ensures
        post.index == pre.index || post.index == pre.index + 1,
        pre.mode == LocalMode::Running && last is Err ==> post.mode == LocalMode::Finished
            && (action matches LocalAction::Done(r) && r is Err),
        action is Run ==> pre.mode == LocalMode::Ready,
{
}

} // verus!
