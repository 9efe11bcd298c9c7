//! The run of a plan's steps, one after another, with the fragments that they invoke.

use vstd::prelude::*;
use vstd::string::*;

use crate::budget::{budget_error, ensure_overall_budget};
use crate::error::{PlanError, outcome};
use crate::handover::texts_depend_on_earlier_steps;
use crate::outputs::{EvaluatedValue, EvaluatedView, opt_captured};
use crate::pairs::{cloned_pairs, pairs};
use crate::references::Piece;
use crate::run::{RunAction, RunEvent, StepRun, acts, awaits, run_next, run_run_step, run_state};
use crate::scope::{
    InheritedRef, OutputRule, RefContext, RefEntry, RefScope, RuleView, boundary_scope,
    inherited_refs, invoke_outputs, piece_value, ref_views, resolve_invoke_deferred_with,
    resolve_invoke_outputs, resolve_piece, resolve_run_step_output_refs, resolved_text,
};
use crate::staging::opt_error;
use crate::step::{FragmentOutputDecl, InvokeStep, RunStep, StepCondition, TestStep, shell_template};
use crate::strings::{cat3, cat5, decimal_u64, joined};
use crate::text::{decimal, join, opt_slice, opt_text, texts};

verus! {

// ---------------------------------------------------------------------------
// The index of a step
// ---------------------------------------------------------------------------

/// The decimal digits of numbers.
pub open spec fn decimals(numbers: Seq<usize>) -> Seq<Seq<char>> {
    numbers.map_values(|n: usize| decimal(n as nat))
}

/// The index of a step: the indices of the steps that invoke its fragment, and its own,
/// with dots between them.
pub open spec fn step_display(parents: Seq<usize>, index: usize) -> Seq<char> {
    if parents.len() == 0 {
        decimal(index as nat)
    } else {
        join(decimals(parents), "."@) + "."@ + decimal(index as nat)
    }
}

/// The index of a step: the indices of the steps that invoke its fragment, and its own,
/// with dots between them.
pub fn build_step_display(parent_indices: &[usize], step_idx: usize) -> (r: String)
    ensures
        r@ == step_display(parent_indices@, step_idx),
{
    let own = decimal_u64(step_idx as u64);
    if parent_indices.len() == 0 {
        return own;
    }
    let ghost all = decimals(parent_indices@);
    let mut parts: Vec<String> = Vec::new();
    assert(texts(parts@) =~= all.take(0));
    let mut i: usize = 0;
    while i < parent_indices.len()
        invariant
            i <= parent_indices@.len(),
            all == decimals(parent_indices@),
            texts(parts@) == all.take(i as int),
        decreases parent_indices@.len() - i,
    {
        let ghost had = texts(parts@);
        parts.push(decimal_u64(parent_indices[i] as u64));
        assert(texts(parts@) =~= had.push(all[i as int]));
        assert(texts(parts@) =~= all.take(i + 1));
        i += 1;
    }
    assert(all.take(i as int) =~= all);
    let prefix = joined(&parts, ".");
    cat3(prefix.as_str(), ".", own.as_str())
}

// ---------------------------------------------------------------------------
// Frames
// ---------------------------------------------------------------------------

/// The steps of a plan or of a fragment that is being run.
#[derive(Debug)]
pub struct Frame {
    pub steps: Vec<TestStep>,
    /// The step whose turn it is.
    pub index: usize,
    /// The variables that the steps have set.
    pub env: Vec<(String, String)>,
    /// The references that were resolved where the fragment is invoked.
    pub inherited: Vec<InheritedRef>,
}

impl Frame {
    /// The step whose turn it is.
    pub open spec fn current(self) -> TestStep {
        self.steps@[self.index as int]
    }

    /// Whether a step is left.
    pub open spec fn goes_on(self) -> bool {
        self.index < self.steps@.len()
    }

    /// Whether `other` differs from this frame in its steps at most.
    pub open spec fn same_place(self, other: Frame) -> bool {
        self.index == other.index && self.env == other.env && self.inherited == other.inherited
    }

    /// Whether `other` has the same steps, but for the one whose turn it is here.
    pub open spec fn same_others(self, other: Frame) -> bool {
        self.steps@.len() == other.steps@.len() && forall|k: int|
            0 <= k < self.steps@.len() && k != self.index ==> #[trigger] self.steps@[k]
                == other.steps@[k]
    }
}

/// What the flow is doing.
#[derive(Clone, Copy, Debug, PartialEq, Eq, Structural)]
pub enum FlowMode {
    /// It goes on to the next step.
    Ready,
    /// It looks whether there is time for the step.
    Checking,
    /// It waits for the verdict on the step's condition.
    Deciding,
    /// The script of the step runs.
    Running,
    /// The archive of the step is unpacked.
    Archiving,
    /// A step has failed; the fragments around it end.
    Failing,
    Finished,
}

/// The run of a plan's steps.
#[derive(Debug)]
pub struct StepFlow {
    /// The plan, the fragment that its current step invokes, and so on.
    pub frames: Vec<Frame>,
    pub mode: FlowMode,
    /// How the run fails.
    pub failure: Option<PlanError>,
    /// Whether archives can be unpacked.
    pub archives: bool,
    pub overall_deadline: u128,
    pub overall_timeout: u64,
}

/// What happened since the last action.
#[derive(Debug)]
pub enum FlowEvent {
    /// Nothing: the flow can go on.
    Proceed,
    /// The clock, and whether the run was interrupted.
    Clock { poll: Result<(), PlanError>, now: u128 },
    /// What the condition of the step came to.
    Condition(Result<bool, PlanError>),
    /// The script or the archive of the step is done.
    Ran(Result<(), PlanError>),
}

/// What to do next.
#[derive(Debug, PartialEq, Eq)]
pub enum FlowAction {
    /// Go on.
    Proceed,
    /// Read the clock.
    ReadClock,
    /// Find out what that condition comes to.
    Evaluate { expression: String },
    /// Run the current step with that script.
    Run { display: String, body: String },
    /// Unpack the archive of the current step.
    Archive { display: String },
    Done(Result<(), PlanError>),
}

/// A line to show.
#[derive(Debug, PartialEq, Eq)]
pub enum FlowNote {
    /// A step begins.
    Title { display: String, name: String, id: Option<String> },
    /// A step is skipped.
    Skipped { display: String, name: String, id: Option<String> },
    /// A step has ended.
    Status { display: String, name: String, id: Option<String>, ok: bool },
}

/// The model of a [`FlowNote`].
pub enum NoteView {
    Title { display: Seq<char>, name: Seq<char>, id: Option<Seq<char>> },
    Skipped { display: Seq<char>, name: Seq<char>, id: Option<Seq<char>> },
    Status { display: Seq<char>, name: Seq<char>, id: Option<Seq<char>>, ok: bool },
}

impl View for FlowNote {
    type V = NoteView;

    open spec fn view(&self) -> NoteView {
        match self {
            FlowNote::Title { display, name, id } => NoteView::Title {
                display: display@,
                name: name@,
                id: opt_text(*id),
            },
            FlowNote::Skipped { display, name, id } => NoteView::Skipped {
                display: display@,
                name: name@,
                id: opt_text(*id),
            },
            FlowNote::Status { display, name, id, ok } => NoteView::Status {
                display: display@,
                name: name@,
                id: opt_text(*id),
                ok: *ok,
            },
        }
    }
}

/// The contents of a list of notes.
pub open spec fn note_views(v: Seq<FlowNote>) -> Seq<NoteView> {
    v.map_values(|n: FlowNote| n@)
}

/// What to show and then to do.
#[derive(Debug)]
pub struct FlowOutput {
    pub notes: Vec<FlowNote>,
    pub action: FlowAction,
}

/// The indices of the steps that invoke the fragments around frame `n`.
pub open spec fn parents_of(frames: Seq<Frame>, n: int) -> Seq<usize> {
    frames.take(n).map_values(|f: Frame| f.index)
}

/// The index of the current step of frame `n`.
pub open spec fn display_at(frames: Seq<Frame>, n: int) -> Seq<char> {
    step_display(parents_of(frames, n), frames[n].index)
}

/// The outputs that the fragment of frame `n` declares, if it is a fragment.
pub open spec fn decls_at(frames: Seq<Frame>, n: int) -> Option<Seq<FragmentOutputDecl>> {
    if n == 0 {
        None
    } else {
        Some(frames[n - 1].current()->Invoke_0.output_decls@)
    }
}

/// The scope of the current step of frame `n`.
pub open spec fn scope_at(frames: Seq<Frame>, n: int) -> RefScope {
    RefScope {
        consumer: frames[n].current()->Run_0.name@,
        scope: frames[n].steps@,
        prior: frames[n].steps@.take(frames[n].index as int),
        inherited: ref_views(frames[n].inherited@),
        rule: RuleView::Fragment(decls_at(frames, n)),
    }
}

impl StepFlow {
    /// There is a frame; under each other frame stands the step that invokes it; and
    /// while a step is dealt with, it is there.
    pub open spec fn wf(self) -> bool {
        &&& self.frames@.len() > 0
        &&& forall|k: int|
            0 <= k < self.frames@.len() - 1 ==> (#[trigger] self.frames@[k]).goes_on()
                && self.frames@[k].current() is Invoke
        &&& forall|k: int|
            0 <= k < self.frames@.len() ==> (#[trigger] self.frames@[k]).index
                <= self.frames@[k].steps@.len()
        &&& match self.mode {
            FlowMode::Checking => self.frame().goes_on(),
            FlowMode::Deciding => self.frame().goes_on() && self.frame().current() is Run
                && self.frame().current()->Run_0.condition is Deferred,
            FlowMode::Running => self.frame().goes_on() && self.frame().current() is Run,
            FlowMode::Archiving => self.frame().goes_on() && self.frame().current() is Archive,
            FlowMode::Failing => self.failure is Some,
            FlowMode::Ready => self.failure is None,
            FlowMode::Finished => self.frames@.len() == 1,
        }
        &&& self.failure is Some ==> self.mode == FlowMode::Failing || self.mode
            == FlowMode::Finished
    }

    /// The innermost frame.
    pub open spec fn frame(self) -> Frame {
        self.frames@.last()
    }

    /// The index of the current step of the innermost frame.
    pub open spec fn display(self) -> Seq<char> {
        display_at(self.frames@, self.frames@.len() - 1)
    }

    /// Whether `other` has the same frames below the innermost one, and the same
    /// settings.
    pub open spec fn same_below(self, other: StepFlow) -> bool {
        &&& self.frames@.len() == other.frames@.len()
        &&& self.frames@.drop_last() == other.frames@.drop_last()
        &&& self.settings() == other.settings()
    }

    /// What never changes.
    pub open spec fn settings(self) -> (bool, u128, u64) {
        (self.archives, self.overall_deadline, self.overall_timeout)
    }

    /// A run that has not begun.
    pub fn new(
        steps: Vec<TestStep>,
        env: Vec<(String, String)>,
        archives: bool,
        overall_deadline: u128,
        overall_timeout: u64,
    ) -> (r: StepFlow)
        ensures
            r.wf(),
            r.mode == FlowMode::Ready,
            r.failure is None,
            r.frames@.len() == 1,
            r.frame().steps == steps,
            r.frame().index == 0,
            r.frame().env == env,
            r.frame().inherited@.len() == 0,
            r.settings() == (archives, overall_deadline, overall_timeout),
    {
        let mut frames: Vec<Frame> = Vec::new();
        frames.push(Frame { steps, index: 0, env, inherited: Vec::new() });
        StepFlow {
            frames,
            mode: FlowMode::Ready,
            failure: None,
            archives,
            overall_deadline,
            overall_timeout,
        }
    }

    fn display_text(&self) -> (r: String)
        requires
            self.frames@.len() > 0,
        ensures
            r@ == self.display(),
    {
        let n: usize = self.frames.len() - 1;
        let ghost all = parents_of(self.frames@, n as int);
        let mut parents: Vec<usize> = Vec::new();
        assert(parents@ =~= all.take(0));
        let mut i: usize = 0;
        while i < n
            invariant
                i <= n,
                n == self.frames@.len() - 1,
                all == parents_of(self.frames@, n as int),
                parents@ == all.take(i as int),
            decreases n - i,
        {
            let index: usize = self.frames[i].index;
            parents.push(index);
            assert(all[i as int] == self.frames@[i as int].index);
            assert(parents@ =~= all.take(i + 1));
            i += 1;
        }
        assert(all.take(i as int) =~= all);
        build_step_display(parents.as_slice(), self.frames[n].index)
    }
}

// ---------------------------------------------------------------------------
// One step after another
// ---------------------------------------------------------------------------

/// The error of an archive step where archives cannot be unpacked.
pub open spec fn archives_off(display: Seq<char>, name: Seq<char>) -> Seq<char> {
    "step "@ + display + " ('"@ + name
        + "') is an `archive` step, but archive execution is not enabled for this command"@
}

/// The note that the current step of frame `n` has ended.
pub open spec fn status_at(frames: Seq<Frame>, n: int, ok: bool) -> NoteView {
    NoteView::Status {
        display: display_at(frames, n),
        name: frames[n].current().label(),
        id: frames[n].current().shown_id(),
        ok,
    }
}

/// The note that the current step of frame `n` begins.
pub open spec fn title_at(frames: Seq<Frame>, n: int) -> NoteView {
    NoteView::Title {
        display: display_at(frames, n),
        name: frames[n].current().label(),
        id: frames[n].current().shown_id(),
    }
}

/// The note that the current step of frame `n` is skipped.
pub open spec fn skipped_at(frames: Seq<Frame>, n: int) -> NoteView {
    NoteView::Skipped {
        display: display_at(frames, n),
        name: frames[n].current().label(),
        id: frames[n].current().shown_id(),
    }
}

/// Whether the flow fails with `error`, everything else as it was.
pub open spec fn fails(pre: StepFlow, post: StepFlow, error: Seq<char>) -> bool {
    &&& post.frames == pre.frames
    &&& post.settings() == pre.settings()
    &&& post.mode == FlowMode::Failing
    &&& opt_error(post.failure) == Some(error)
}

/// Whether the flow goes on behind the current step of the innermost frame.
pub open spec fn steps_on(pre: StepFlow, post: StepFlow) -> bool {
    &&& post.same_below(pre)
    &&& post.frame().steps == pre.frame().steps
    &&& post.frame().index == pre.frame().index + 1
    &&& post.frame().env == pre.frame().env
    &&& post.frame().inherited == pre.frame().inherited
    &&& post.mode == FlowMode::Ready
    &&& post.failure is None
}

/// Whether the flow differs in its mode at most.
pub open spec fn turns(pre: StepFlow, post: StepFlow, mode: FlowMode) -> bool {
    &&& post.frames == pre.frames
    &&& post.settings() == pre.settings()
    &&& post.mode == mode
    &&& post.failure == pre.failure
}

/// Whether the flow enters the fragment that the current step invokes: a new frame with
/// its steps, a copy of the variables, and the references that were resolved for it.
pub open spec fn enters(pre: StepFlow, post: StepFlow, refs: Seq<RefEntry>) -> bool {
    let n = pre.frames@.len() as int;
    let invoke = pre.frame().current()->Invoke_0;
    &&& post.frames@.len() == n + 1
    &&& post.frames@.take(n - 1) == pre.frames@.take(n - 1)
    &&& post.settings() == pre.settings()
    &&& post.frames@[n - 1].same_place(pre.frame())
    &&& pre.frame().same_others(post.frames@[n - 1])
    &&& post.frames@[n - 1].current() matches TestStep::Invoke(rest) && rest == (InvokeStep {
        steps: rest.steps,
        ..invoke
    })
    &&& post.frame().steps@ == invoke.steps@
    &&& post.frame().index == 0
    &&& pairs(post.frame().env@) == pairs(pre.frame().env@)
    &&& ref_views(post.frame().inherited@) == refs
    &&& post.mode == FlowMode::Ready
    &&& post.failure is None
}

/// The step that invoked the innermost frame, with the steps of that frame back in it.
pub open spec fn is_closed(pre: StepFlow, invoke: InvokeStep) -> bool {
    let n = pre.frames@.len() as int;
    &&& invoke == (InvokeStep {
        steps: invoke.steps,
        ..(pre.frames@[n - 2].current()->Invoke_0)
    })
    &&& invoke.steps@ == pre.frame().steps@
}

/// Whether the flow leaves the innermost frame: it is gone, with its variables, and its
/// steps are back in the step that invoked it, which may have its outputs now.
pub open spec fn leaves_frame(pre: StepFlow, post: StepFlow) -> bool {
    let n = pre.frames@.len() as int;
    &&& post.frames@.len() == n - 1
    &&& post.frames@.take(n - 2) == pre.frames@.take(n - 2)
    &&& post.settings() == pre.settings()
    &&& post.frame().env == pre.frames@[n - 2].env
    &&& post.frame().inherited == pre.frames@[n - 2].inherited
    &&& pre.frames@[n - 2].same_others(post.frame())
    &&& post.frame().steps@[pre.frames@[n - 2].index as int] matches TestStep::Invoke(now)
        && is_closed(
        pre,
        InvokeStep {
            captured_outputs: pre.frames@[n - 2].current()->Invoke_0.captured_outputs,
            ..now
        },
    )
}

/// Whether the outputs of a fragment that has run could be stored, as `r` says.
pub open spec fn closes(pre: StepFlow, post: StepFlow, error: Option<Seq<char>>) -> bool {
    let n = pre.frames@.len() as int;
    let at = pre.frames@[n - 2].index as int;
    let now = post.frame().steps@[at]->Invoke_0;
    let closed = InvokeStep {
        captured_outputs: pre.frames@[n - 2].current()->Invoke_0.captured_outputs,
        ..now
    };
    if closed.output_decls@.len() == 0 {
        error is None && now == closed
    } else {
        match invoke_outputs(closed, closed.output_decls@.len()) {
            Ok(outputs) => error is None && opt_captured(now.captured_outputs) == Some(outputs),
            Err(e) => error == Some(e) && now == closed,
        }
    }
}

/// What the flow does when it goes on: it looks whether there is time for the next step,
/// ends, or leaves a fragment that has run.
pub open spec fn on_proceed(
    pre: StepFlow,
    post: StepFlow,
    notes: Seq<NoteView>,
    action: FlowAction,
) -> bool {
    let n = pre.frames@.len() as int;
    if pre.frame().goes_on() {
        &&& turns(pre, post, FlowMode::Checking)
        &&& notes == Seq::<NoteView>::empty()
        &&& action is ReadClock
    } else if n == 1 {
        &&& turns(pre, post, FlowMode::Finished)
        &&& notes == Seq::<NoteView>::empty()
        &&& action matches FlowAction::Done(r) && r is Ok
    } else {
        &&& leaves_frame(pre, post)
        &&& closes(pre, post, opt_error(post.failure))
        &&& notes == seq![status_at(pre.frames@, n - 2, post.failure is None)]
        &&& action is Proceed
        &&& if post.failure is None {
            post.mode == FlowMode::Ready && post.frame().index == pre.frames@[n - 2].index + 1
        } else {
            post.mode == FlowMode::Failing && post.frame().index == pre.frames@[n - 2].index
        }
    }
}

/// What the flow does when a step has failed: the fragments around it end, from the
/// inside out, and then the run.
pub open spec fn on_failing(
    pre: StepFlow,
    post: StepFlow,
    notes: Seq<NoteView>,
    action: FlowAction,
) -> bool {
    let n = pre.frames@.len() as int;
    &&& post.failure == pre.failure
    &&& if n == 1 {
        &&& turns(pre, post, FlowMode::Finished)
        &&& notes == Seq::<NoteView>::empty()
        &&& action matches FlowAction::Done(r) && outcome(r, opt_error(pre.failure))
    } else {
        &&& leaves_frame(pre, post)
        &&& post.frame().steps@[pre.frames@[n - 2].index as int]->Invoke_0.captured_outputs
            == pre.frames@[n - 2].current()->Invoke_0.captured_outputs
        &&& post.frame().index == pre.frames@[n - 2].index
        &&& post.mode == FlowMode::Failing
        &&& notes == seq![status_at(pre.frames@, n - 2, false)]
        &&& action is Proceed
    }
}

/// What the flow does with a step that is to run: its script runs with the references
/// resolved.
pub open spec fn on_run(
    pre: StepFlow,
    post: StepFlow,
    notes: Seq<NoteView>,
    action: FlowAction,
) -> bool {
    let top = pre.frames@.len() - 1;
    match resolved_text(scope_at(pre.frames@, top), pre.frame().current()->Run_0.run@) {
        Ok(text) => {
            &&& turns(pre, post, FlowMode::Running)
            &&& notes == seq![title_at(pre.frames@, top)]
            &&& action matches FlowAction::Run { display, body } && display@ == pre.display()
                && body@ == text
        },
        Err(e) => {
            &&& fails(pre, post, e)
            &&& notes == seq![title_at(pre.frames@, top), status_at(pre.frames@, top, false)]
            &&& action is Proceed
        },
    }
}

/// What the flow does with a step that is skipped.
pub open spec fn on_skip(
    pre: StepFlow,
    post: StepFlow,
    notes: Seq<NoteView>,
    action: FlowAction,
) -> bool {
    &&& steps_on(pre, post)
    &&& notes == seq![skipped_at(pre.frames@, pre.frames@.len() - 1)]
    &&& action is Proceed
}

/// What the flow does with the next step, when there is time for it.
pub open spec fn on_step(
    pre: StepFlow,
    post: StepFlow,
    notes: Seq<NoteView>,
    action: FlowAction,
) -> bool {
    let top = pre.frames@.len() - 1;
    match pre.frame().current() {
        TestStep::Invoke(invoke) => {
            let scope = boundary_scope(
                invoke.uses@,
                pre.frame().steps@,
                pre.frame().steps@.take(pre.frame().index as int),
                ref_views(pre.frame().inherited@),
            );
            match inherited_refs(scope, invoke.deferred_with@, invoke.deferred_with@.len()) {
                Ok(refs) => {
                    &&& enters(pre, post, refs)
                    &&& notes == seq![title_at(pre.frames@, top)]
                    &&& action is Proceed
                },
                Err(e) => {
                    &&& fails(pre, post, e)
                    &&& notes == seq![
                        title_at(pre.frames@, top),
                        status_at(pre.frames@, top, false),
                    ]
                    &&& action is Proceed
                },
            }
        },
        TestStep::Run(run) => match run.condition {
            StepCondition::Always => on_run(pre, post, notes, action),
            StepCondition::Resolved(b) => if b {
                on_run(pre, post, notes, action)
            } else {
                on_skip(pre, post, notes, action)
            },
            StepCondition::Deferred(text) => {
                &&& turns(pre, post, FlowMode::Deciding)
                &&& notes == Seq::<NoteView>::empty()
                &&& action matches FlowAction::Evaluate { expression } && expression@ == text@
            },
        },
        TestStep::Archive(step) => {
            &&& notes == seq![title_at(pre.frames@, top)]
            &&& if pre.archives {
                &&& turns(pre, post, FlowMode::Archiving)
                &&& action matches FlowAction::Archive { display } && display@ == pre.display()
            } else {
                &&& fails(pre, post, archives_off(pre.display(), step.archive.label()))
                &&& action is Proceed
            }
        },
    }
}

/// What a flow waits for.
pub open spec fn flow_awaits(mode: FlowMode, event: FlowEvent) -> bool {
    match mode {
        FlowMode::Ready | FlowMode::Failing | FlowMode::Finished => event is Proceed,
        FlowMode::Checking => event is Clock,
        FlowMode::Deciding => event is Condition,
        FlowMode::Running | FlowMode::Archiving => event is Ran,
    }
}

/// What the flow does when `event` happens.
pub open spec fn flow_moves(
    pre: StepFlow,
    event: FlowEvent,
    post: StepFlow,
    notes: Seq<NoteView>,
    action: FlowAction,
) -> bool {
    let top = pre.frames@.len() - 1;
    match pre.mode {
        FlowMode::Ready => on_proceed(pre, post, notes, action),
        FlowMode::Failing => on_failing(pre, post, notes, action),
        FlowMode::Finished => {
            &&& post == pre
            &&& notes == Seq::<NoteView>::empty()
            &&& action matches FlowAction::Done(r) && outcome(r, opt_error(pre.failure))
        },
        FlowMode::Checking => match budget_error(
            event->Clock_poll,
            event->Clock_now,
            pre.overall_deadline,
            pre.overall_timeout,
        ) {
            Some(e) => {
                &&& fails(pre, post, e)
                &&& notes == Seq::<NoteView>::empty()
                &&& action is Proceed
            },
            None => on_step(pre, post, notes, action),
        },
        FlowMode::Deciding => if event->Condition_0 == Ok::<bool, PlanError>(true) {
            on_run(pre, post, notes, action)
        } else {
            on_skip(pre, post, notes, action)
        },
        FlowMode::Running | FlowMode::Archiving => {
            &&& notes == seq![status_at(pre.frames@, top, event->Ran_0 is Ok)]
            &&& action is Proceed
            &&& match event->Ran_0 {
                Ok(()) => steps_on(pre, post),
                Err(e) => fails(pre, post, e@),
            }
        },
    }
}

fn owned_id(id: Option<&str>) -> (r: Option<String>)
    ensures
        opt_text(r) == opt_slice(id),
{
    match id {
        Some(id) => Some(id.to_owned()),
        None => None,
    }
}

impl StepFlow {
    fn title_note(&self) -> (r: FlowNote)
        requires
            self.frames@.len() > 0,
            self.frame().goes_on(),
        ensures
            r@ == title_at(self.frames@, self.frames@.len() - 1),
    {
        let n: usize = self.frames.len() - 1;
        let display = self.display_text();
        let step = &self.frames[n].steps[self.frames[n].index];
        FlowNote::Title {
            display,
            name: step.display_name().to_owned(),
            id: owned_id(step.display_id()),
        }
    }

    fn skipped_note(&self) -> (r: FlowNote)
        requires
            self.frames@.len() > 0,
            self.frame().goes_on(),
        ensures
            r@ == skipped_at(self.frames@, self.frames@.len() - 1),
    {
        let n: usize = self.frames.len() - 1;
        let display = self.display_text();
        let step = &self.frames[n].steps[self.frames[n].index];
        FlowNote::Skipped {
            display,
            name: step.display_name().to_owned(),
            id: owned_id(step.display_id()),
        }
    }

    fn status_note(&self, ok: bool) -> (r: FlowNote)
        requires
            self.frames@.len() > 0,
            self.frame().goes_on(),
        ensures
            r@ == status_at(self.frames@, self.frames@.len() - 1, ok),
    {
        let n: usize = self.frames.len() - 1;
        let display = self.display_text();
        let step = &self.frames[n].steps[self.frames[n].index];
        FlowNote::Status {
            display,
            name: step.display_name().to_owned(),
            id: owned_id(step.display_id()),
            ok,
        }
    }

    fn fail(&mut self, error: PlanError)
        requires
            old(self).wf(),
            old(self).failure is None,
        ensures
            final(self).wf(),
            fails(*old(self), *final(self), error@),
    {
        self.failure = Some(error);
        self.mode = FlowMode::Failing;
    }

    /// Goes on behind the current step of the innermost frame.
    fn step_on(&mut self)
        requires
            old(self).wf(),
            old(self).failure is None,
            old(self).frame().goes_on(),
        ensures
            final(self).wf(),
            steps_on(*old(self), *final(self)),
    {
        let n: usize = self.frames.len() - 1;
        let count: usize = self.frames[n].steps.len();
        let frame = &mut self.frames[n];
        assert(frame.index < count);
        frame.index = frame.index + 1;
        self.mode = FlowMode::Ready;
        assert(self.frames@.drop_last() =~= old(self).frames@.drop_last());
        assert forall|k: int| 0 <= k < self.frames@.len() - 1 implies (
        #[trigger] self.frames@[k]).goes_on() && self.frames@[k].current() is Invoke by {
            assert(self.frames@[k] == old(self).frames@[k]);
        }
    }
}

pub(crate) fn one_note(note: FlowNote) -> (r: Vec<FlowNote>)
    ensures
        note_views(r@) == seq![note@],
{
    let ghost view = note@;
    let r: Vec<FlowNote> = vec![note];
    assert(note_views(r@) =~= seq![view]);
    r
}

pub(crate) fn two_notes(first: FlowNote, second: FlowNote) -> (r: Vec<FlowNote>)
    ensures
        note_views(r@) == seq![first@, second@],
{
    let ghost a = first@;
    let ghost b = second@;
    let r: Vec<FlowNote> = vec![first, second];
    assert(note_views(r@) =~= seq![a, b]);
    r
}

pub(crate) fn no_notes() -> (r: Vec<FlowNote>)
    ensures
        note_views(r@) == Seq::<NoteView>::empty(),
{
    let r: Vec<FlowNote> = Vec::new();
    assert(note_views(r@) =~= Seq::<NoteView>::empty());
    r
}

impl StepFlow {
    /// Enters the fragment that the current step invokes.
    fn enter(&mut self, refs: Vec<InheritedRef>)
        requires
            old(self).wf(),
            old(self).failure is None,
            old(self).frame().goes_on(),
            old(self).frame().current() is Invoke,
        ensures
            final(self).wf(),
            enters(*old(self), *final(self), ref_views(refs@)),
    {
        let ghost n = old(self).frames@.len() as int;
        let top: usize = self.frames.len() - 1;
        let mut steps: Vec<TestStep> = Vec::new();
        let env = cloned_pairs(&self.frames[top].env);
        let frame = &mut self.frames[top];
        let i: usize = frame.index;
        match &mut frame.steps[i] {
            TestStep::Invoke(invoke) => {
                std::mem::swap(&mut steps, &mut invoke.steps);
            },
            _ => {},
        }
        let ghost mid = self.frames@;
        self.frames.push(Frame { steps, index: 0, env, inherited: refs });
        self.mode = FlowMode::Ready;
        assert(self.frames@.take(n - 1) =~= old(self).frames@.take(n - 1)) by {
            assert forall|k: int| 0 <= k < n - 1 implies self.frames@[k] == old(
                self,
            ).frames@[k] by {
                assert(self.frames@[k] == mid[k]);
            }
        }
        assert(self.frames@[n - 1] == mid[n - 1]);
        assert forall|k: int| 0 <= k < self.frames@.len() - 1 implies (
        #[trigger] self.frames@[k]).goes_on() && self.frames@[k].current() is Invoke by {
            if k < n - 1 {
                assert(self.frames@.take(n - 1)[k] == old(self).frames@.take(n - 1)[k]);
                assert(self.frames@[k] == old(self).frames@[k]);
            }
        }
        assert forall|k: int| 0 <= k < self.frames@.len() implies (
        #[trigger] self.frames@[k]).index <= self.frames@[k].steps@.len() by {
            if k < n - 1 {
                assert(self.frames@.take(n - 1)[k] == old(self).frames@.take(n - 1)[k]);
                assert(self.frames@[k] == old(self).frames@[k]);
            }
        }
    }

    /// Leaves the innermost frame: its steps go back to where they came from.
    fn leave(&mut self)
        requires
            old(self).wf(),
            old(self).frames@.len() > 1,
        ensures
            final(self).frames@.len() == old(self).frames@.len() - 1,
            leaves_frame(*old(self), *final(self)),
            final(self).frame().index == old(self).frames@[old(self).frames@.len() - 2].index,
            final(self).frame().current() matches TestStep::Invoke(now) && now.captured_outputs
                == old(self).frames@[old(self).frames@.len()
                - 2].current()->Invoke_0.captured_outputs,
            final(self).mode == old(self).mode,
            final(self).failure == old(self).failure,
    {
        let ghost n = old(self).frames@.len() as int;
        let ghost below = old(self).frames@[n - 2];
        assert(below.goes_on() && below.current() is Invoke);
        let popped = self.frames.pop();
        let top: usize = self.frames.len() - 1;
        let mut steps: Vec<TestStep> = match popped {
            Some(frame) => frame.steps,
            None => Vec::new(),
        };
        assert(steps@ == old(self).frame().steps@);
        assert(self.frames@[n - 2] == below);
        let frame = &mut self.frames[top];
        let i: usize = frame.index;
        match &mut frame.steps[i] {
            TestStep::Invoke(invoke) => {
                std::mem::swap(&mut steps, &mut invoke.steps);
            },
            _ => {},
        }
        assert(self.frames@.take(n - 2) =~= old(self).frames@.take(n - 2));
    }
}

impl StepFlow {
    fn proceed(&mut self) -> (out: FlowOutput)
        requires
            old(self).wf(),
            old(self).mode == FlowMode::Ready,
        ensures
            final(self).wf(),
            on_proceed(*old(self), *final(self), note_views(out.notes@), out.action),
    {
        let ghost n = old(self).frames@.len() as int;
        let top: usize = self.frames.len() - 1;
        if self.frames[top].index < self.frames[top].steps.len() {
            self.mode = FlowMode::Checking;
            return FlowOutput { notes: no_notes(), action: FlowAction::ReadClock };
        }
        if top == 0 {
            self.mode = FlowMode::Finished;
            return FlowOutput { notes: no_notes(), action: FlowAction::Done(Ok(())) };
        }
        self.leave();
        let ghost mid = *self;
        proof {
            lemma_left(*old(self), mid);
        }
        let now: usize = self.frames.len() - 1;
        let frame = &mut self.frames[now];
        let i: usize = frame.index;
        let mut result: Result<(), PlanError> = Ok(());
        match &mut frame.steps[i] {
            TestStep::Invoke(invoke) => {
                result = resolve_invoke_outputs(invoke);
            },
            _ => {},
        }
        let ghost after = *self;
        proof {
            lemma_after_leaving(*old(self), mid, after);
        }
        let note = self.status_note(result.is_ok());
        match result {
            Ok(()) => {
                self.step_on();
            },
            Err(e) => {
                self.fail(e);
            },
        }
        proof {
            lemma_closed(*old(self), after, *self);
        }
        FlowOutput { notes: one_note(note), action: FlowAction::Proceed }
    }
}

/// The flow is in order after it has left a frame.
proof fn lemma_left(pre: StepFlow, post: StepFlow)
    requires
        pre.wf(),
        pre.frames@.len() > 1,
        leaves_frame(pre, post),
        post.frame().index == pre.frames@[pre.frames@.len() - 2].index,
    ensures
        post.frames@.len() > 0,
        post.frame().goes_on(),
        post.frame().current() is Invoke,
        forall|k: int|
            0 <= k < post.frames@.len() - 1 ==> (#[trigger] post.frames@[k]) == pre.frames@[k],
{
    let n = pre.frames@.len() as int;
    assert(pre.frames@[n - 2].goes_on());
    assert forall|k: int| 0 <= k < post.frames@.len() - 1 implies (#[trigger] post.frames@[k])
        == pre.frames@[k] by {
        assert(post.frames@.take(n - 2)[k] == pre.frames@.take(n - 2)[k]);
    }
}

/// Storing the outputs of a fragment that was left keeps the flow in order.
proof fn lemma_after_leaving(pre: StepFlow, mid: StepFlow, after: StepFlow)
    requires
        pre.wf(),
        pre.mode == FlowMode::Ready,
        pre.frames@.len() > 1,
        leaves_frame(pre, mid),
        mid.mode == pre.mode,
        mid.failure == pre.failure,
        mid.frame().index == pre.frames@[pre.frames@.len() - 2].index,
        mid.frame().current() matches TestStep::Invoke(m) && m.captured_outputs
            == pre.frames@[pre.frames@.len() - 2].current()->Invoke_0.captured_outputs,
        after.frames@.len() == mid.frames@.len(),
        forall|k: int|
            0 <= k < mid.frames@.len() - 1 ==> (#[trigger] after.frames@[k]) == mid.frames@[k],
        after.settings() == mid.settings(),
        after.mode == mid.mode,
        after.failure == mid.failure,
        after.frame().same_place(mid.frame()),
        mid.frame().same_others(after.frame()),
        after.frame().current() matches TestStep::Invoke(a) && a == (InvokeStep {
            captured_outputs: a.captured_outputs,
            ..(mid.frame().current()->Invoke_0)
        }),
    ensures
        after.wf(),
        after.frame().goes_on(),
        leaves_frame(pre, after),
        status_at(after.frames@, after.frames@.len() - 1, true) == status_at(
            pre.frames@,
            pre.frames@.len() - 2,
            true,
        ),
        status_at(after.frames@, after.frames@.len() - 1, false) == status_at(
            pre.frames@,
            pre.frames@.len() - 2,
            false,
        ),
{
    let n = pre.frames@.len() as int;
    lemma_left(pre, mid);
    assert forall|k: int| 0 <= k < n - 2 implies (#[trigger] after.frames@[k])
        == pre.frames@[k] by {
        assert(after.frames@[k] == mid.frames@[k]);
    }
    assert(after.frames@.take(n - 2) =~= pre.frames@.take(n - 2));
    assert(parents_of(after.frames@, n - 2) =~= parents_of(pre.frames@, n - 2));
    assert forall|k: int| 0 <= k < after.frames@.len() implies (
    #[trigger] after.frames@[k]).index <= after.frames@[k].steps@.len() by {
        if k < n - 2 {
            assert(after.frames@[k] == pre.frames@[k]);
        }
    }
    assert(pre.frames@[n - 2].same_others(after.frame())) by {
        assert forall|k: int|
            0 <= k < pre.frames@[n - 2].steps@.len() && k != pre.frames@[n
                - 2].index implies #[trigger] pre.frames@[n - 2].steps@[k]
            == after.frame().steps@[k] by {
            assert(mid.frame().steps@[k] == after.frame().steps@[k]);
        }
    }
}

/// What the flow is after it has left a frame and gone on, or failed.
proof fn lemma_closed(pre: StepFlow, after: StepFlow, post: StepFlow)
    requires
        pre.wf(),
        pre.frames@.len() > 1,
        leaves_frame(pre, after),
        after.frame().index == pre.frames@[pre.frames@.len() - 2].index,
        steps_on(after, post) || post.frames == after.frames && post.settings()
            == after.settings(),
    ensures
        leaves_frame(pre, post),
        post.frame().steps == after.frame().steps,
{
    let n = pre.frames@.len() as int;
    if steps_on(after, post) {
        assert(post.frames@.take(n - 2) =~= post.frames@.drop_last());
        assert(after.frames@.take(n - 2) =~= after.frames@.drop_last());
    }
}

impl StepFlow {
    fn fail_outwards(&mut self) -> (out: FlowOutput)
        requires
            old(self).wf(),
            old(self).mode == FlowMode::Failing,
        ensures
            final(self).wf(),
            on_failing(*old(self), *final(self), note_views(out.notes@), out.action),
    {
        let ghost n = old(self).frames@.len() as int;
        if self.frames.len() == 1 {
            self.mode = FlowMode::Finished;
            let r = match &self.failure {
                Some(e) => Err(e.clone()),
                None => Ok(()),
            };
            return FlowOutput { notes: no_notes(), action: FlowAction::Done(r) };
        }
        self.leave();
        proof {
            lemma_left(*old(self), *self);
            assert(parents_of(self.frames@, n - 2) =~= parents_of(old(self).frames@, n - 2)) by {
                assert(self.frames@.take(n - 2) =~= old(self).frames@.take(n - 2));
            }
            assert forall|k: int| 0 <= k < self.frames@.len() implies (
            #[trigger] self.frames@[k]).index <= self.frames@[k].steps@.len() by {
                if k < n - 2 {
                    assert(self.frames@[k] == old(self).frames@[k]);
                }
            }
            assert(self.wf());
        }
        let note = self.status_note(false);
        FlowOutput { notes: one_note(note), action: FlowAction::Proceed }
    }

    /// The outputs that the fragment of the innermost frame declares.
    fn declared(&self) -> (r: Option<&[FragmentOutputDecl]>)
        requires
            self.wf(),
        ensures
            OutputRule::Fragment(r)@ == RuleView::Fragment(
                decls_at(self.frames@, self.frames@.len() - 1),
            ),
    {
        let top: usize = self.frames.len() - 1;
        if top == 0 {
            return None;
        }
        assert(self.frames@[top - 1].goes_on() && self.frames@[top - 1].current() is Invoke);
        match &self.frames[top - 1].steps[self.frames[top - 1].index] {
            TestStep::Invoke(invoke) => Some(invoke.output_decls.as_slice()),
            _ => None,
        }
    }

    /// What a reference in the condition of the current step stands for.
    pub fn resolve_condition_reference(&self, piece: &Piece) -> (r: Result<
        EvaluatedValue,
        PlanError,
    >)
        requires
            self.wf(),
            self.mode == FlowMode::Deciding,
        ensures
            ({
                let want = piece_value(
                    scope_at(self.frames@, self.frames@.len() - 1),
                    piece@,
                );
                match r {
                    Ok(v) => want == Ok::<EvaluatedView, Seq<char>>(v@),
                    Err(e) => want == Err::<EvaluatedView, Seq<char>>(e@),
                }
            }),
    {
        let top: usize = self.frames.len() - 1;
        let decls = self.declared();
        let frame = &self.frames[top];
        let steps = frame.steps.as_slice();
        let (prior, _) = steps.split_at(frame.index);
        assert(prior@ =~= frame.steps@.take(frame.index as int));
        match &frame.steps[frame.index] {
            TestStep::Run(run) => {
                let ctx = RefContext {
                    consumer: run,
                    scope_steps: steps,
                    prior_steps: prior,
                    inherited: &frame.inherited,
                    rule: OutputRule::Fragment(decls),
                };
                assert(ctx@ == scope_at(self.frames@, self.frames@.len() - 1));
                resolve_piece(piece, &ctx)
            },
            _ => Err(PlanError::text("the current step has no condition")),
        }
    }

    /// Starts the script of the current step.
    fn start_run(&mut self) -> (out: FlowOutput)
        requires
            old(self).wf(),
            old(self).failure is None,
            old(self).frame().goes_on(),
            old(self).frame().current() is Run,
        ensures
            final(self).wf(),
            on_run(*old(self), *final(self), note_views(out.notes@), out.action),
    {
        let top: usize = self.frames.len() - 1;
        let title = self.title_note();
        let resolved = {
            let decls = self.declared();
            let frame = &self.frames[top];
            match &frame.steps[frame.index] {
                TestStep::Run(run) => resolve_run_step_output_refs(
                    run,
                    frame.steps.as_slice(),
                    frame.index,
                    decls,
                    &frame.inherited,
                ),
                _ => Ok(String::new()),
            }
        };
        match resolved {
            Ok(body) => {
                let display = self.display_text();
                self.mode = FlowMode::Running;
                FlowOutput { notes: one_note(title), action: FlowAction::Run { display, body } }
            },
            Err(e) => {
                let status = self.status_note(false);
                self.fail(e);
                FlowOutput { notes: two_notes(title, status), action: FlowAction::Proceed }
            },
        }
    }

    fn skip(&mut self) -> (out: FlowOutput)
        requires
            old(self).wf(),
            old(self).failure is None,
            old(self).frame().goes_on(),
        ensures
            final(self).wf(),
            on_skip(*old(self), *final(self), note_views(out.notes@), out.action),
    {
        let note = self.skipped_note();
        self.step_on();
        FlowOutput { notes: one_note(note), action: FlowAction::Proceed }
    }

    /// Starts the current step, for which there is time.
    fn start_step(&mut self) -> (out: FlowOutput)
        requires
            old(self).wf(),
            old(self).mode == FlowMode::Checking,
        ensures
            final(self).wf(),
            on_step(*old(self), *final(self), note_views(out.notes@), out.action),
    {
        let top: usize = self.frames.len() - 1;
        let index: usize = self.frames[top].index;
        match &self.frames[top].steps[index] {
            TestStep::Invoke(invoke) => {
                let refs = resolve_invoke_deferred_with(
                    invoke,
                    self.frames[top].steps.as_slice(),
                    index,
                    &self.frames[top].inherited,
                );
                let title = self.title_note();
                match refs {
                    Ok(refs) => {
                        self.enter(refs);
                        FlowOutput { notes: one_note(title), action: FlowAction::Proceed }
                    },
                    Err(e) => {
                        let status = self.status_note(false);
                        self.fail(e);
                        FlowOutput {
                            notes: two_notes(title, status),
                            action: FlowAction::Proceed,
                        }
                    },
                }
            },
            TestStep::Run(run) => match &run.condition {
                StepCondition::Always => self.start_run(),
                StepCondition::Resolved(b) => if *b {
                    self.start_run()
                } else {
                    self.skip()
                },
                StepCondition::Deferred(text) => {
                    let expression = text.clone();
                    self.mode = FlowMode::Deciding;
                    FlowOutput {
                        notes: no_notes(),
                        action: FlowAction::Evaluate { expression },
                    }
                },
            },
            TestStep::Archive(step) => {
                let name = step.archive.shown_name().to_owned();
                let title = self.title_note();
                let display = self.display_text();
                if self.archives {
                    self.mode = FlowMode::Archiving;
                    return FlowOutput {
                        notes: one_note(title),
                        action: FlowAction::Archive { display },
                    };
                }
                let message = cat5(
                    "step ",
                    display.as_str(),
                    " ('",
                    name.as_str(),
                    "') is an `archive` step, but archive execution is not enabled for this command",
                );
                self.fail(PlanError::new(message));
                FlowOutput { notes: one_note(title), action: FlowAction::Proceed }
            },
        }
    }

    /// Takes how the current step ended.
    fn end_step(&mut self, result: Result<(), PlanError>) -> (out: FlowOutput)
        requires
            old(self).wf(),
            old(self).mode == FlowMode::Running || old(self).mode == FlowMode::Archiving,
        ensures
            final(self).wf(),
            note_views(out.notes@) == seq![
                status_at(old(self).frames@, old(self).frames@.len() - 1, result is Ok),
            ],
            out.action is Proceed,
            match result {
                Ok(()) => steps_on(*old(self), *final(self)),
                Err(e) => fails(*old(self), *final(self), e@),
            },
    {
        let note = self.status_note(result.is_ok());
        match result {
            Ok(()) => {
                self.step_on();
            },
            Err(e) => {
                self.fail(e);
            },
        }
        FlowOutput { notes: one_note(note), action: FlowAction::Proceed }
    }
}

/// Runs the steps of a plan: takes what happened since the last action, and says what to
/// show and what to do next.
///
/// Steps run in order, each if there is time for it and its condition holds. A fragment
/// runs where a step invokes it, with a copy of the variables; what it sets is gone when
/// it ends. The first step that fails ends the fragments around it and then the run.
pub fn run_steps_inner(flow: &mut StepFlow, event: FlowEvent) -> (out: FlowOutput)
    requires
        old(flow).wf(),
        flow_awaits(old(flow).mode, event),
    ensures
        final(flow).wf(),
        flow_moves(*old(flow), event, *final(flow), note_views(out.notes@), out.action),
{
    match flow.mode {
        FlowMode::Ready => flow.proceed(),
        FlowMode::Failing => flow.fail_outwards(),
        FlowMode::Checking => {
            if let FlowEvent::Clock { poll, now } = event {
                match ensure_overall_budget(
                    &poll,
                    now,
                    flow.overall_deadline,
                    flow.overall_timeout,
                ) {
                    Err(e) => {
                        flow.fail(e);
                        return FlowOutput { notes: no_notes(), action: FlowAction::Proceed };
                    },
                    Ok(()) => {
                        return flow.start_step();
                    },
                }
            }
            FlowOutput { notes: no_notes(), action: FlowAction::Proceed }
        },
        FlowMode::Deciding => {
            let run = match event {
                FlowEvent::Condition(Ok(b)) => b,
                _ => false,
            };
            if run {
                flow.start_run()
            } else {
                flow.skip()
            }
        },
        FlowMode::Running | FlowMode::Archiving => {
            let result = match event {
                FlowEvent::Ran(result) => result,
                _ => Ok(()),
            };
            flow.end_step(result)
        },
        FlowMode::Finished => {
            let r = match &flow.failure {
                Some(e) => Err(e.clone()),
                None => Ok(()),
            };
            FlowOutput { notes: no_notes(), action: FlowAction::Done(r) }
        },
    }
}

/// Takes what happened in the run of the current step. Its variables are those of the
/// innermost frame.
pub fn run_current_step(flow: &mut StepFlow, run: &mut StepRun, event: RunEvent) -> (action:
    RunAction)
    requires
        old(flow).wf(),
        old(flow).mode == FlowMode::Running,
        awaits(old(flow).frame().current()->Run_0, old(run).phase, event),
        shell_template(opt_text(old(flow).frame().current()->Run_0.shell)) is Ok,
    ensures
        final(flow).wf(),
        final(flow).mode == old(flow).mode,
        final(flow).failure == old(flow).failure,
        final(flow).same_below(*old(flow)),
        final(flow).frame().index == old(flow).frame().index,
        final(flow).frame().inherited == old(flow).frame().inherited,
        old(flow).frame().same_others(final(flow).frame()),
        ({
            let was = old(flow).frame().current()->Run_0;
            let is = final(flow).frame().current()->Run_0;
            &&& final(flow).frame().current() is Run
            &&& is == (RunStep { captured_outputs: is.captured_outputs, ..was })
            &&& run_state(*final(run), is, final(flow).frame().env@) == run_next(
                old(run).place,
                was,
                run_state(*old(run), was, old(flow).frame().env@),
                event,
            )
            &&& acts(*old(run), was, run_state(*final(run), is, final(flow).frame().env@), action)
        }),
        final(run).place == old(run).place,
        final(run).body == old(run).body,
        final(run).local_script == old(run).local_script,
        final(run).remote_script == old(run).remote_script,
        final(run).env_path == old(run).env_path,
        final(run).out_path == old(run).out_path,
{
    let top: usize = flow.frames.len() - 1;
    let mut action = RunAction::Done(Ok(()));
    let frame = &mut flow.frames[top];
    let i: usize = frame.index;
    match &mut frame.steps[i] {
        TestStep::Run(step) => {
            action = run_run_step(run, step, &mut frame.env, event);
        },
        _ => {},
    }
    assert(flow.frames@.drop_last() =~= old(flow).frames@.drop_last());
    assert forall|k: int| 0 <= k < flow.frames@.len() - 1 implies (
    #[trigger] flow.frames@[k]).goes_on() && flow.frames@[k].current() is Invoke by {
        assert(flow.frames@[k] == old(flow).frames@[k]);
    }
    action
}

// ---------------------------------------------------------------------------
// What holds of every flow
// ---------------------------------------------------------------------------

/// A fragment keeps its variables to itself: whatever the flow does, the variables of a
/// frame that is there before and after are the same. They change only where the
/// current step of the innermost frame runs, and those of a fragment are gone with its
/// frame.
pub proof fn fragments_keep_their_variables(
    pre: StepFlow,
    event: FlowEvent,
    post: StepFlow,
    notes: Seq<NoteView>,
    action: FlowAction,
    k: int,
)
    requires
        pre.wf(),
        flow_awaits(pre.mode, event),
        flow_moves(pre, event, post, notes, action),
        0 <= k < pre.frames@.len(),
        k < post.frames@.len(),
    ensures
        post.frames@[k].env == pre.frames@[k].env,
{
    lemma_frame_kept(pre, event, post, notes, action, k);
}

/// No step is run twice or left out: in a frame that is there before and after, the flow
/// stays at its step or goes on to the next one.
pub proof fn steps_run_in_order(
    pre: StepFlow,
    event: FlowEvent,
    post: StepFlow,
    notes: Seq<NoteView>,
    action: FlowAction,
    k: int,
)
    requires
        pre.wf(),
        flow_awaits(pre.mode, event),
        flow_moves(pre, event, post, notes, action),
        0 <= k < pre.frames@.len(),
        k < post.frames@.len(),
    ensures
        post.frames@[k].index == pre.frames@[k].index || post.frames@[k].index
            == pre.frames@[k].index + 1,
{
    lemma_frame_kept(pre, event, post, notes, action, k);
}

proof fn lemma_frame_kept(
    pre: StepFlow,
    event: FlowEvent,
    post: StepFlow,
    notes: Seq<NoteView>,
    action: FlowAction,
    k: int,
)
    requires
        pre.wf(),
        flow_awaits(pre.mode, event),
        flow_moves(pre, event, post, notes, action),
        0 <= k < pre.frames@.len(),
        k < post.frames@.len(),
    ensures
        post.frames@[k].env == pre.frames@[k].env,
        post.frames@[k].index == pre.frames@[k].index || post.frames@[k].index
            == pre.frames@[k].index + 1,
{
    let n = pre.frames@.len() as int;
    if post.frames@.len() == n {
        if post.frames != pre.frames {
            assert(steps_on(pre, post));
            if k < n - 1 {
                assert(post.frames@.drop_last()[k] == pre.frames@.drop_last()[k]);
            }
        }
    } else if post.frames@.len() == n + 1 {
        if k < n - 1 {
            assert(post.frames@.take(n - 1)[k] == pre.frames@.take(n - 1)[k]);
        }
    } else {
        if k < n - 2 {
            assert(post.frames@.take(n - 2)[k] == pre.frames@.take(n - 2)[k]);
        }
    }
}

/// No step begins when the time is over or the run was interrupted: a title is shown
/// only right after the clock was read and found in order, or when the verdict on a
/// condition is in, for which the clock was read before.
pub proof fn steps_begin_in_time(
    pre: StepFlow,
    event: FlowEvent,
    post: StepFlow,
    notes: Seq<NoteView>,
    action: FlowAction,
    k: int,
)
    requires
        pre.wf(),
        flow_awaits(pre.mode, event),
        flow_moves(pre, event, post, notes, action),
        0 <= k < notes.len(),
        notes[k] is Title,
    ensures
        pre.mode == FlowMode::Deciding || {
            &&& pre.mode == FlowMode::Checking
            &&& budget_error(
                event->Clock_poll,
                event->Clock_now,
                pre.overall_deadline,
                pre.overall_timeout,
            ) is None
        },
{
}

/// The first failure ends the run: from then on no step begins, and the run ends with
/// that failure.
pub proof fn the_first_failure_ends_the_run(
    pre: StepFlow,
    event: FlowEvent,
    post: StepFlow,
    notes: Seq<NoteView>,
    action: FlowAction,
)
    requires
        pre.wf(),
        flow_awaits(pre.mode, event),
        flow_moves(pre, event, post, notes, action),
        pre.failure is Some,
    ensures
        post.failure == pre.failure,
        post.mode == FlowMode::Failing || post.mode == FlowMode::Finished,
        action is Proceed || (action matches FlowAction::Done(r) && outcome(
            r,
            opt_error(pre.failure),
        )),
        forall|k: int| 0 <= k < notes.len() ==> !(#[trigger] notes[k] is Title),
        post.mode == FlowMode::Failing ==> post.frames@.len() < pre.frames@.len(),
{
}

/// Conditions decide whether a step runs. When the verdict on the condition of a step is in, the
/// step begins exactly if it is true; if it is false or could not be found out, the step is
/// skipped and the flow goes on behind it. A step begins only where its turn has come.
pub proof fn conditions_decide(
    pre: StepFlow,
    event: FlowEvent,
    post: StepFlow,
    notes: Seq<NoteView>,
    action: FlowAction,
)
    requires
        pre.wf(),
        flow_awaits(pre.mode, event),
        flow_moves(pre, event, post, notes, action),
        pre.mode == FlowMode::Deciding,
    ensures
        notes.len() > 0,
        notes[0] is Title <==> (event matches FlowEvent::Condition(Ok(b)) && b),
        notes[0] is Skipped <==> !(event matches FlowEvent::Condition(Ok(b)) && b),
        action is Run ==> (event matches FlowEvent::Condition(Ok(b)) && b),
        (event matches FlowEvent::Condition(Ok(b)) && b) ==> post.frames == pre.frames && (
        action is Run || post.failure is Some),
        !(event matches FlowEvent::Condition(Ok(b)) && b) ==> {
            &&& post.frame().index == pre.frame().index + 1
            &&& post.frame().steps == pre.frame().steps
            &&& post.frame().env == pre.frame().env
            &&& post.failure is None
            &&& action is Proceed
            &&& notes.len() == 1
        },
{
}

/// A step is skipped only where its own condition is against it: it was decided when the plan was
/// loaded and is false, or it was asked for and did not come out true.
pub proof fn steps_are_skipped_for_their_condition(
    pre: StepFlow,
    event: FlowEvent,
    post: StepFlow,
    notes: Seq<NoteView>,
    action: FlowAction,
    k: int,
)
    requires
        pre.wf(),
        flow_awaits(pre.mode, event),
        flow_moves(pre, event, post, notes, action),
        0 <= k < notes.len(),
        notes[k] is Skipped,
    ensures
        pre.frame().goes_on(),
        pre.frame().current() matches TestStep::Run(step) && match step.condition {
            StepCondition::Always => false,
            StepCondition::Resolved(b) => !b,
            StepCondition::Deferred(_) => !(event matches FlowEvent::Condition(Ok(b)) && b),
        },
        action is Proceed,
{
}

/// A script runs only where the condition of its step is for it, and there was time: always, or
/// decided true when the plan was loaded, or asked for and found true.
pub proof fn scripts_run_for_their_condition(
    pre: StepFlow,
    event: FlowEvent,
    post: StepFlow,
    notes: Seq<NoteView>,
    action: FlowAction,
)
    requires
        pre.wf(),
        flow_awaits(pre.mode, event),
        flow_moves(pre, event, post, notes, action),
        action is Run,
    ensures
        pre.frame().goes_on(),
        post.mode == FlowMode::Running,
        post.frames == pre.frames,
        pre.frame().current() matches TestStep::Run(step) && match step.condition {
            StepCondition::Always => pre.mode == FlowMode::Checking,
            StepCondition::Resolved(b) => b && pre.mode == FlowMode::Checking,
            StepCondition::Deferred(_) => event matches FlowEvent::Condition(Ok(b)) && b,
        },
{
}

/// A step whose condition allows it begins when there is time for it: what comes is not skipped.
/// A condition that could not be decided before is asked for, and with its own words.
pub proof fn steps_begin_when_it_is_their_turn(
    pre: StepFlow,
    event: FlowEvent,
    post: StepFlow,
    notes: Seq<NoteView>,
    action: FlowAction,
)
    requires
        pre.wf(),
        pre.mode == FlowMode::Checking,
        event matches FlowEvent::Clock { poll, now } && poll is Ok && now < pre.overall_deadline,
        flow_moves(pre, event, post, notes, action),
    ensures
        ({
            let step = pre.frame().current();
            &&& step matches TestStep::Run(run) ==> match run.condition {
                StepCondition::Deferred(text) => post.mode == FlowMode::Deciding && post.frames
                    == pre.frames && (action matches FlowAction::Evaluate { expression }
                    && expression@ == text@),
                StepCondition::Always => notes.len() > 0 && notes[0] is Title,
                StepCondition::Resolved(b) => notes.len() > 0 && (b ==> notes[0] is Title) && (!b
                    ==> notes[0] is Skipped),
            }
            &&& step is Invoke || step is Archive ==> notes.len() > 0 && notes[0] is Title
            &&& step is Invoke ==> post.failure is Some || {
                &&& post.frames@.len() == pre.frames@.len() + 1
                &&& post.frame().steps@ == step->Invoke_0.steps@
                &&& post.frame().index == 0
                &&& pairs(post.frame().env@) == pairs(pre.frame().env@)
            }
            &&& step is Archive && pre.archives ==> action is Archive && post.failure is None
            &&& step is Archive && !pre.archives ==> post.failure is Some
        }),
{
}

/// A run that ends well has come past every step of the plan, and no fragment is left open. It
/// fails just if some step has.
pub proof fn runs_end_behind_their_last_step(
    pre: StepFlow,
    event: FlowEvent,
    post: StepFlow,
    notes: Seq<NoteView>,
    action: FlowAction,
)
    requires
        pre.wf(),
        pre.mode != FlowMode::Finished,
        flow_awaits(pre.mode, event),
        flow_moves(pre, event, post, notes, action),
    ensures
        action matches FlowAction::Done(r) ==> {
            &&& post.mode == FlowMode::Finished
            &&& post.frames@.len() == 1
            &&& post.frames == pre.frames
            &&& r is Ok <==> pre.failure is None
            &&& r is Ok ==> post.frame().index == post.frame().steps@.len()
        },
        pre.mode == FlowMode::Ready && pre.frames@.len() == 1 && pre.frame().index
            == pre.frame().steps@.len() ==> (action matches FlowAction::Done(r) && r is Ok),
{
}

/// How a step ended decides how the flow goes on: behind it if it succeeded, and to the end of
/// the run with its error if it failed. The note on it says the same.
pub proof fn steps_end_as_they_ran(
    pre: StepFlow,
    event: FlowEvent,
    post: StepFlow,
    notes: Seq<NoteView>,
    action: FlowAction,
)
    requires
        pre.wf(),
        pre.mode == FlowMode::Running || pre.mode == FlowMode::Archiving,
        flow_awaits(pre.mode, event),
        flow_moves(pre, event, post, notes, action),
    ensures
        event matches FlowEvent::Ran(Ok(())) ==> post.failure is None && post.frame().index
            == pre.frame().index + 1 && post.frame().steps == pre.frame().steps
            && post.frame().env == pre.frame().env && notes.len() == 1 && (
        notes[0] matches NoteView::Status { ok, .. } && ok),
        event matches FlowEvent::Ran(Err(e)) ==> (post.failure matches Some(f) && f@ == e@)
            && post.frames == pre.frames && notes.len() == 1 && (
        notes[0] matches NoteView::Status { ok, .. } && !ok),
{
}

/// When a fragment has run, the flow goes on behind the step that invoked it, with the steps of
/// the fragment back in that step. If its outputs cannot be given out, the run fails.
pub proof fn fragments_return_where_they_were_invoked(
    pre: StepFlow,
    event: FlowEvent,
    post: StepFlow,
    notes: Seq<NoteView>,
    action: FlowAction,
)
    requires
        pre.wf(),
        flow_awaits(pre.mode, event),
        flow_moves(pre, event, post, notes, action),
        post.frames@.len() < pre.frames@.len(),
    ensures
        ({
            let n = pre.frames@.len() as int;
            let outer = pre.frames@[n - 2];
            &&& post.frames@.len() == n - 1
            &&& outer.current() is Invoke
            &&& post.frame().steps@.len() == outer.steps@.len()
            &&& post.failure is None ==> pre.frame().index == pre.frame().steps@.len()
                && post.frame().index == outer.index + 1
            &&& post.failure is Some ==> post.frame().index == outer.index
            &&& post.frame().steps@[outer.index as int] is Invoke
            &&& post.frame().steps@[outer.index as int]->Invoke_0.steps@ == pre.frame().steps@
            &&& notes.len() == 1
            &&& notes[0] matches NoteView::Status { ok, .. } && (ok <==> post.failure is None)
        }),
{
}

/// What a step runs is settled by what came before it: two plans that have done the same so far,
/// and whose turn it is to run the same step, run it with the same script, whatever follows.
pub proof fn scripts_depend_on_what_came_before(
    pre: StepFlow,
    post: StepFlow,
    action: FlowAction,
    other: StepFlow,
    other_post: StepFlow,
    other_action: FlowAction,
    event: FlowEvent,
    notes: Seq<NoteView>,
    other_notes: Seq<NoteView>,
)
    requires
        pre.wf(),
        other.wf(),
        pre.mode == other.mode,
        flow_awaits(pre.mode, event),
        pre.frames@.len() == other.frames@.len(),
        pre.frames@.drop_last() == other.frames@.drop_last(),
        pre.frame().same_place(other.frame()),
        pre.frame().goes_on(),
        other.frame().goes_on(),
        pre.frame().steps@.take(pre.frame().index + 1) == other.frame().steps@.take(
            pre.frame().index + 1,
        ),
        flow_moves(pre, event, post, notes, action),
        flow_moves(other, event, other_post, other_notes, other_action),
        action is Run,
        other_action is Run,
    ensures
        action->Run_body@ == other_action->Run_body@,
        action->Run_display@ == other_action->Run_display@,
{
    let top = pre.frames@.len() - 1;
    let i = pre.frame().index as int;
    let a = scope_at(pre.frames@, top);
    let b = scope_at(other.frames@, top);
    let longer = pre.frame().steps@.take(i + 1);
    assert(longer[i] == pre.frame().steps@[i]);
    assert(other.frame().steps@.take(i + 1)[i] == other.frame().steps@[i]);
    assert(pre.frame().steps@.take(i) =~= longer.take(i));
    assert(other.frame().steps@.take(i) =~= other.frame().steps@.take(i + 1).take(i));
    assert(pre.frames@.take(top) =~= pre.frames@.drop_last());
    assert(other.frames@.take(top) =~= other.frames@.drop_last());
    if top > 0 {
        assert(pre.frames@.drop_last()[top - 1] == pre.frames@[top - 1]);
        assert(other.frames@.drop_last()[top - 1] == other.frames@[top - 1]);
    }
    assert(a.prior == b.prior && a.inherited == b.inherited && a.consumer == b.consumer);
    assert(a.rule == b.rule);
    texts_depend_on_earlier_steps(a, b, pre.frame().current()->Run_0.run@);
}

/// The index of a step in a fragment is that of the step that invokes the fragment, a dot and
/// its own; the first step is `0`.
pub proof fn indices_are_nested(parents: Seq<usize>, parent: usize, index: usize)
    ensures
        step_display(parents.push(parent), index) == step_display(parents, parent) + "."@
            + decimal(index as nat),
        step_display(Seq::<usize>::empty(), index) == decimal(index as nat),
{
    let longer = parents.push(parent);
    let all = decimals(longer);
    assert(all.drop_last() =~= decimals(parents));
    assert(all.last() == decimal(parent as nat));
    if parents.len() == 0 {
        assert(all =~= seq![decimal(parent as nat)]);
        assert(join(all, "."@) == decimal(parent as nat));
    }
    assert(step_display(longer, index) =~= step_display(parents, parent) + "."@ + decimal(
        index as nat,
    ));
}

} // verus!
