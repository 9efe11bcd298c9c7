//! The phases of a run: from the first sign of the guest to its last step.

use vstd::prelude::*;
use vstd::string::*;

use crate::budget::{
    Retries, TEST_SSH_READY_TIMEOUT_SECS, allowance, budget_error, capped_budget, deadline,
    ensure_overall_budget, span, transport_tries,
};
use crate::error::{PlanError, in_context, outcome};
use crate::guest::{bootstrap_mount_cmd, bootstrap_run_cmd};
use crate::load::TestConfig;
use crate::paths::{join_path, joined_path};
use crate::shell::quoted;
use crate::staging::opt_error;
use crate::strings::cat2;
use crate::text::opt_slice;
use crate::waits::StableSsh;

verus! {

/// A disc with a script that prepares the guest.
#[derive(Debug, PartialEq, Eq)]
pub struct TestIsoBootstrap {
    pub label: String,
    /// Where the disc is mounted in the guest.
    pub mount: String,
    /// The script, from the root of the disc.
    pub bootstrap: String,
}

/// The seconds that a run, its steps and the first boot may take.
#[derive(Clone, Copy, Debug, PartialEq, Eq)]
pub struct StepTimeoutPolicy {
    pub overall_timeout: u64,
    pub default_step_timeout: u64,
    pub cloud_init_timeout: u64,
}

/// What a run goes through.
#[derive(Debug, PartialEq, Eq)]
pub struct StepFlowPlan {
    /// The directory that paths are taken from.
    pub context: String,
    pub bootstraps: Vec<TestIsoBootstrap>,
    /// Whether there are files to place in the guest.
    pub files: bool,
    /// Whether there are assertions to hold against the guest before its steps run.
    pub asserts: bool,
    pub timeouts: StepTimeoutPolicy,
}

/// A phase of a run.
#[derive(Clone, Copy, Debug, PartialEq, Eq, Structural)]
pub enum Phase {
    Start,
    /// The directory for log files is made.
    LogDir,
    /// The guest is waited for.
    Ssh,
    /// The first boot of the guest is waited for.
    CloudInit,
    /// A stable connection is waited for.
    StableSsh,
    /// That disc is mounted.
    Mount(usize),
    /// The script of that disc runs.
    Bootstrap(usize),
    /// The files are placed.
    Files,
    /// The assertions are checked.
    Asserts,
    /// The steps run.
    Steps,
    Finished,
}

/// How far a run has come.
#[derive(Debug, PartialEq, Eq)]
pub struct PhaseRun {
    pub plan: StepFlowPlan,
    pub phase: Phase,
    /// When the time of the run is over, once it has begun.
    pub overall_deadline: u128,
    pub failure: Option<PlanError>,
}

/// What happened since the last action.
#[derive(Debug)]
pub struct PhaseEvent {
    /// How the last action ended.
    pub last: Result<(), PlanError>,
    /// Whether the run was interrupted.
    pub poll: Result<(), PlanError>,
    pub now: u128,
}

/// What to do next.
#[derive(Debug, PartialEq, Eq)]
pub enum PhaseAction {
    MakeDir { path: String },
    /// Wait that long at most until the guest answers.
    WaitForSsh { limit: u128 },
    /// Wait for a stable connection.
    WaitForStableSsh,
    /// Run that command in the guest, that often and for that long at most.
    RunInGuest { command: String, retries: Retries, limit: u128 },
    /// Place the files.
    StageFiles,
    /// Check the assertions.
    RunAsserts,
    /// Run the steps.
    RunSteps,
    Done(Result<(), PlanError>),
}

/// A line to show.
#[derive(Debug, PartialEq, Eq)]
pub enum PhaseNote {
    /// Something that concerns the guest begins.
    Title { description: String },
    /// Something that concerns the guest has ended.
    Status { description: String, ok: bool },
}

/// The model of a [`PhaseNote`].
pub enum PhaseNoteView {
    Title { description: Seq<char> },
    Status { description: Seq<char>, ok: bool },
}

impl View for PhaseNote {
    type V = PhaseNoteView;

    open spec fn view(&self) -> PhaseNoteView {
        match self {
            PhaseNote::Title { description } => PhaseNoteView::Title {
                description: description@,
            },
            PhaseNote::Status { description, ok } => PhaseNoteView::Status {
                description: description@,
                ok: *ok,
            },
        }
    }
}

/// The contents of a list of notes.
pub open spec fn phase_note_views(v: Seq<PhaseNote>) -> Seq<PhaseNoteView> {
    v.map_values(|n: PhaseNote| n@)
}

/// What to show and then to do.
#[derive(Debug)]
pub struct PhaseOutput {
    pub notes: Vec<PhaseNote>,
    pub action: PhaseAction,
}

/// The directory for log files.
pub open spec fn log_dir_of(context: Seq<char>) -> Seq<char> {
    joined_path(joined_path(context, "build"@), "logs"@)
}

/// The directory for log files.
pub fn step_log_dir(context: &str) -> (r: String)
    ensures
        r@ == log_dir_of(context@),
{
    let build = join_path(context, "build");
    join_path(build.as_str(), "logs")
}

/// What is shown of a phase, if it is shown.
pub open spec fn phase_name(phase: Phase) -> Option<Seq<char>> {
    match phase {
        Phase::Ssh => Some("Waiting for SSH"@),
        Phase::CloudInit => Some("Waiting for cloud-init"@),
        Phase::StableSsh => Some("Waiting for stable SSH"@),
        _ => None,
    }
}

fn shown_phase(phase: Phase) -> (r: Option<&'static str>)
    ensures
        opt_slice(r) == phase_name(phase),
{
    match phase {
        Phase::Ssh => Some("Waiting for SSH"),
        Phase::CloudInit => Some("Waiting for cloud-init"),
        Phase::StableSsh => Some("Waiting for stable SSH"),
        _ => None,
    }
}

/// The error of a phase whose action failed.
pub open spec fn phase_error(plan: StepFlowPlan, phase: Phase, e: Seq<char>) -> Seq<char> {
    match phase {
        Phase::LogDir => in_context(
            "cannot create test step log dir: "@ + log_dir_of(plan.context@),
            e,
        ),
        Phase::Mount(i) => in_context(
            "iso bootstrap mount failed for label "@ + plan.bootstraps@[i as int].label@,
            e,
        ),
        Phase::Bootstrap(i) => in_context(
            "iso bootstrap script failed for label "@ + plan.bootstraps@[i as int].label@,
            e,
        ),
        _ => e,
    }
}

/// The phase that follows one that went well.
pub open spec fn next_phase(plan: StepFlowPlan, phase: Phase) -> Phase {
    match phase {
        Phase::Start => Phase::LogDir,
        Phase::LogDir => Phase::Ssh,
        Phase::Ssh => Phase::CloudInit,
        Phase::CloudInit => Phase::StableSsh,
        Phase::StableSsh => bootstrap_phase(plan, 0),
        Phase::Mount(i) => Phase::Bootstrap(i),
        Phase::Bootstrap(i) => bootstrap_phase(plan, i + 1),
        Phase::Files => after_files(plan),
        Phase::Asserts => Phase::Steps,
        Phase::Steps => Phase::Finished,
        Phase::Finished => Phase::Finished,
    }
}

/// The phase of the disc `i`, or the one behind the discs.
pub open spec fn bootstrap_phase(plan: StepFlowPlan, i: int) -> Phase {
    if i < plan.bootstraps@.len() {
        Phase::Mount(i as usize)
    } else if plan.files {
        Phase::Files
    } else {
        after_files(plan)
    }
}

/// The phase behind the placing of files.
pub open spec fn after_files(plan: StepFlowPlan) -> Phase {
    if plan.asserts {
        Phase::Asserts
    } else {
        Phase::Steps
    }
}

/// Whether a phase begins only if there is time left.
pub open spec fn needs_time(phase: Phase) -> bool {
    phase is Ssh || phase is CloudInit || phase is Mount || phase is Files
}

/// What a run does in a phase.
pub open spec fn phase_acts(run: PhaseRun, now: u128, action: PhaseAction) -> bool {
    let plan = run.plan;
    let limit = allowance(run.overall_deadline, now, plan.timeouts.cloud_init_timeout);
    match run.phase {
        Phase::Start => false,
        Phase::LogDir => action matches PhaseAction::MakeDir { path } && path@ == log_dir_of(
            plan.context@,
        ),
        Phase::Ssh => action matches PhaseAction::WaitForSsh { limit: l } && l == allowance(
            run.overall_deadline,
            now,
            TEST_SSH_READY_TIMEOUT_SECS,
        ),
        Phase::CloudInit => action matches PhaseAction::RunInGuest { command, retries, limit: l }
            && command@ == "sudo cloud-init status --wait"@ && retries == transport_tries() && l == limit,
        Phase::StableSsh => action is WaitForStableSsh,
        Phase::Mount(i) => action matches PhaseAction::RunInGuest { command, retries, limit: l }
            && command@ == "sudo mkdir -p "@ + quoted(plan.bootstraps@[i as int].mount@)
            + " && sudo mount -L "@ + quoted(plan.bootstraps@[i as int].label@) + " -o ro "@
            + quoted(plan.bootstraps@[i as int].mount@) && retries == transport_tries() && l == limit,
        Phase::Bootstrap(i) => action matches PhaseAction::RunInGuest { command, retries, limit: l }
            && command@ == "sudo bash "@ + quoted(
            joined_path(
                plan.bootstraps@[i as int].mount@,
                plan.bootstraps@[i as int].bootstrap@,
            ),
        ) && retries == transport_tries() && l == limit,
        Phase::Files => action is StageFiles,
        Phase::Asserts => action is RunAsserts,
        Phase::Steps => action is RunSteps,
        Phase::Finished => action matches PhaseAction::Done(r) && outcome(
            r,
            opt_error(run.failure),
        ),
    }
}

/// Whether the discs that a phase speaks of are there.
pub open spec fn phase_in_plan(plan: StepFlowPlan, phase: Phase) -> bool {
    match phase {
        Phase::Mount(i) => i < plan.bootstraps@.len(),
        Phase::Bootstrap(i) => i < plan.bootstraps@.len(),
        _ => true,
    }
}

impl PhaseRun {
    /// A run that has not begun.
    pub fn new(plan: StepFlowPlan) -> (r: PhaseRun)
        ensures
            r.plan == plan,
            r.phase == Phase::Start,
            r.failure is None,
            r.wf(),
    {
        PhaseRun { plan, phase: Phase::Start, overall_deadline: 0, failure: None }
    }

    /// The disc that is dealt with is there, and a failure has ended the run.
    pub open spec fn wf(self) -> bool {
        &&& phase_in_plan(self.plan, self.phase)
        &&& self.failure is Some ==> self.phase == Phase::Finished
    }

    /// Why the run ends after what happened, if it has to.
    pub open spec fn ending(self, event: PhaseEvent) -> Option<Seq<char>> {
        match event.last {
            Err(e) => if self.phase == Phase::Start {
                None
            } else {
                Some(phase_error(self.plan, self.phase, e@))
            },
            Ok(()) => if needs_time(next_phase(self.plan, self.phase)) {
                budget_error(
                    event.poll,
                    event.now,
                    self.overall_deadline,
                    self.plan.timeouts.overall_timeout,
                )
            } else {
                None
            },
        }
    }

    /// What is shown after what happened: that the last phase has ended, and that the
    /// next one begins.
    pub open spec fn shown(self, event: PhaseEvent) -> Seq<PhaseNoteView> {
        let ended = match phase_name(self.phase) {
            Some(d) => seq![PhaseNoteView::Status { description: d, ok: event.last is Ok }],
            None => seq![],
        };
        let begun = if self.ending(event) is Some {
            seq![]
        } else {
            match phase_name(next_phase(self.plan, self.phase)) {
                Some(d) => seq![PhaseNoteView::Title { description: d }],
                None => seq![],
            }
        };
        ended + begun
    }
}

fn phase_after(plan: &StepFlowPlan, phase: Phase) -> (r: Phase)
    requires
        phase_in_plan(*plan, phase),
    ensures
        r == next_phase(*plan, phase),
        phase_in_plan(*plan, r),
{
    let discs: usize = plan.bootstraps.len();
    match phase {
        Phase::Start => Phase::LogDir,
        Phase::LogDir => Phase::Ssh,
        Phase::Ssh => Phase::CloudInit,
        Phase::CloudInit => Phase::StableSsh,
        Phase::StableSsh => disc_phase(plan, 0),
        Phase::Mount(i) => Phase::Bootstrap(i),
        Phase::Bootstrap(i) => {
            assert(i < discs);
            disc_phase(plan, i + 1)
        },
        Phase::Files => if plan.asserts {
            Phase::Asserts
        } else {
            Phase::Steps
        },
        Phase::Asserts => Phase::Steps,
        Phase::Steps | Phase::Finished => Phase::Finished,
    }
}

fn disc_phase(plan: &StepFlowPlan, i: usize) -> (r: Phase)
    ensures
        r == bootstrap_phase(*plan, i as int),
        phase_in_plan(*plan, r),
{
    if i < plan.bootstraps.len() {
        Phase::Mount(i)
    } else if plan.files {
        Phase::Files
    } else if plan.asserts {
        Phase::Asserts
    } else {
        Phase::Steps
    }
}

fn failed_phase(plan: &StepFlowPlan, phase: Phase, error: &PlanError) -> (e: PlanError)
    requires
        phase_in_plan(*plan, phase),
    ensures
        e@ == phase_error(*plan, phase, error@),
{
    match phase {
        Phase::LogDir => {
            let dir = step_log_dir(plan.context.as_str());
            let context = cat2("cannot create test step log dir: ", dir.as_str());
            error.within(context.as_str())
        },
        Phase::Mount(i) => {
            let context = cat2(
                "iso bootstrap mount failed for label ",
                plan.bootstraps[i].label.as_str(),
            );
            error.within(context.as_str())
        },
        Phase::Bootstrap(i) => {
            let context = cat2(
                "iso bootstrap script failed for label ",
                plan.bootstraps[i].label.as_str(),
            );
            error.within(context.as_str())
        },
        _ => error.clone(),
    }
}

fn phase_action(run: &PhaseRun, now: u128) -> (action: PhaseAction)
    requires
        run.wf(),
        run.phase != Phase::Start,
    ensures
        phase_acts(*run, now, action),
{
    let plan = &run.plan;
    let limit: u128 = capped_budget(
        run.overall_deadline,
        now,
        plan.timeouts.cloud_init_timeout,
    );
    match run.phase {
        Phase::Start | Phase::Finished => match &run.failure {
            Some(e) => PhaseAction::Done(Err(e.clone())),
            None => PhaseAction::Done(Ok(())),
        },
        Phase::LogDir => PhaseAction::MakeDir { path: step_log_dir(plan.context.as_str()) },
        Phase::Ssh => PhaseAction::WaitForSsh {
            limit: capped_budget(run.overall_deadline, now, TEST_SSH_READY_TIMEOUT_SECS),
        },
        Phase::CloudInit => PhaseAction::RunInGuest {
            command: "sudo cloud-init status --wait".to_owned(),
            retries: Retries::often(),
            limit,
        },
        Phase::StableSsh => PhaseAction::WaitForStableSsh,
        Phase::Mount(i) => PhaseAction::RunInGuest {
            command: bootstrap_mount_cmd(
                plan.bootstraps[i].mount.as_str(),
                plan.bootstraps[i].label.as_str(),
            ),
            retries: Retries::often(),
            limit,
        },
        Phase::Bootstrap(i) => PhaseAction::RunInGuest {
            command: bootstrap_run_cmd(
                plan.bootstraps[i].mount.as_str(),
                plan.bootstraps[i].bootstrap.as_str(),
            ),
            retries: Retries::often(),
            limit,
        },
        Phase::Files => PhaseAction::StageFiles,
        Phase::Asserts => PhaseAction::RunAsserts,
        Phase::Steps => PhaseAction::RunSteps,
    }
}

/// Takes a run through its phases: takes what happened since the last action, and says
/// what to show and what to do next. The guest is waited for, then its first boot, then
/// a stable connection; its discs are mounted and their scripts run; files are placed,
/// assertions checked, and at last the steps run. What fails ends the run.
pub fn run_step_flow(run: &mut PhaseRun, event: &PhaseEvent) -> (out: PhaseOutput)
    requires
        old(run).wf(),
        old(run).phase != Phase::Finished,
        old(run).phase == Phase::Start ==> event.now + span(
            old(run).plan.timeouts.overall_timeout,
        ) <= u128::MAX,
    ensures
        final(run).wf(),
        final(run).plan == old(run).plan,
        final(run).overall_deadline == if old(run).phase == Phase::Start {
            event.now + span(old(run).plan.timeouts.overall_timeout)
        } else {
            old(run).overall_deadline as int
        },
        opt_error(final(run).failure) == old(run).ending(*event),
        final(run).phase == if old(run).ending(*event) is Some {
            Phase::Finished
        } else {
            next_phase(old(run).plan, old(run).phase)
        },
        phase_note_views(out.notes@) == old(run).shown(*event),
        phase_acts(*final(run), event.now, out.action),
{
    let ghost before = *run;
    let was = run.phase;
    let next = phase_after(&run.plan, was);
    let mut notes: Vec<PhaseNote> = Vec::new();
    assert(phase_note_views(notes@) =~= seq![]);
    if let Some(d) = shown_phase(was) {
        notes.push(
            PhaseNote::Status { description: d.to_owned(), ok: event.last.is_ok() },
        );
    }
    let ghost ended = match phase_name(was) {
        Some(d) => seq![PhaseNoteView::Status { description: d, ok: event.last is Ok }],
        None => seq![],
    };
    assert(phase_note_views(notes@) =~= ended);
    let starting = match was {
        Phase::Start => true,
        _ => false,
    };
    if starting {
        run.overall_deadline = deadline(event.now, run.plan.timeouts.overall_timeout);
        run.phase = next;
        assert(phase_note_views(notes@) =~= before.shown(*event));
        let action = phase_action(run, event.now);
        return PhaseOutput { notes, action };
    }
    let failure = match &event.last {
        Err(e) => Some(failed_phase(&run.plan, was, e)),
        Ok(()) => {
            let timed = match next {
                Phase::Ssh | Phase::CloudInit | Phase::Mount(_) | Phase::Files => true,
                _ => false,
            };
            if timed {
                match ensure_overall_budget(
                    &event.poll,
                    event.now,
                    run.overall_deadline,
                    run.plan.timeouts.overall_timeout,
                ) {
                    Err(e) => Some(e),
                    Ok(()) => None,
                }
            } else {
                None
            }
        },
    };
    if failure.is_some() {
        run.failure = failure;
        run.phase = Phase::Finished;
    } else {
        run.phase = next;
        if let Some(d) = shown_phase(next) {
            notes.push(PhaseNote::Title { description: d.to_owned() });
        }
    }
    assert(phase_note_views(notes@) =~= before.shown(*event));
    let action = phase_action(run, event.now);
    PhaseOutput { notes, action }
}

/// The place of a phase among the phases.
pub open spec fn phase_rank(plan: StepFlowPlan, phase: Phase) -> int {
    match phase {
        Phase::Start => 0,
        Phase::LogDir => 1,
        Phase::Ssh => 2,
        Phase::CloudInit => 3,
        Phase::StableSsh => 4,
        Phase::Mount(i) => 5 + 2 * i,
        Phase::Bootstrap(i) => 6 + 2 * i,
        Phase::Files => 5 + 2 * (plan.bootstraps@.len() as int),
        Phase::Asserts => 6 + 2 * (plan.bootstraps@.len() as int),
        Phase::Steps => 7 + 2 * (plan.bootstraps@.len() as int),
        Phase::Finished => 8 + 2 * (plan.bootstraps@.len() as int),
    }
}

/// A run takes its phases in their order, and assertions are checked before any step
/// runs: the phase that follows always has a higher rank, and the rank of the
/// assertions is below that of the steps.
pub proof fn phases_come_in_order(plan: StepFlowPlan, phase: Phase)
    requires
        phase_in_plan(plan, phase),
        phase != Phase::Finished,
    ensures
        phase_rank(plan, next_phase(plan, phase)) > phase_rank(plan, phase),
        phase_rank(plan, next_phase(plan, phase)) <= phase_rank(plan, Phase::Finished),
        phase_rank(plan, Phase::Asserts) < phase_rank(plan, Phase::Steps),
        plan.asserts && next_phase(plan, phase) == Phase::Steps ==> phase == Phase::Asserts,
        plan.files && next_phase(plan, phase) == Phase::Asserts ==> phase == Phase::Files,
{
    assert(plan.bootstraps@.len() == plan.bootstraps.len());
}

/// The run of a test: its files are placed if it has any, its assertions are run before
/// its steps if it has any, and its timeouts hold.
pub fn run_test_flow(context: &str, config: &TestConfig, bootstraps: Vec<TestIsoBootstrap>) -> (r:
    PhaseRun)
    ensures
        r.wf(),
        r.phase == Phase::Start,
        r.failure is None,
        r.plan.context@ == context@,
        r.plan.bootstraps == bootstraps,
        r.plan.files == (config.files@.len() > 0),
        r.plan.asserts == (config.assert_block is Some),
        r.plan.timeouts.overall_timeout == config.timeout,
        r.plan.timeouts.default_step_timeout == config.step_timeout,
        r.plan.timeouts.cloud_init_timeout == config.cloud_init_timeout,
{
    PhaseRun::new(
        StepFlowPlan {
            context: context.to_owned(),
            bootstraps,
            files: config.files.len() > 0,
            asserts: config.assert_block.is_some(),
            timeouts: StepTimeoutPolicy {
                overall_timeout: config.timeout,
                default_step_timeout: config.step_timeout,
                cloud_init_timeout: config.cloud_init_timeout,
            },
        },
    )
}

} // verus!
