//! What the steps and the output of a plan must satisfy.

use vstd::prelude::*;
use vstd::string::*;

use crate::error::{PlanError, in_context, outcome};
use crate::reference::{Reference, ReferenceView, reference_of};
use crate::step::{ArchiveStep, RunStep, StepTarget, TestStep, resolve_shell, shell_template};
use crate::strings::{cat3, cat4, contains, contains_char, has_prefix, is_blank, same, trimmed};
use crate::text::{find, opt_slice, opt_text, starts_with, trim};
use crate::validate::{PortSpec, first_error};

verus! {

/// The kind of plan that steps are checked for.
#[derive(Clone, Copy, Debug, PartialEq, Eq, Structural)]
pub enum PlanKind {
    Test,
    Build,
}

impl PlanKind {
    /// The word that names the kind.
    pub open spec fn word(self) -> Seq<char> {
        match self {
            PlanKind::Test => "test"@,
            PlanKind::Build => "build"@,
        }
    }

    /// The word that names the kind.
    pub fn as_str(self) -> (r: &'static str)
        ensures
            r@ == self.word(),
    {
        match self {
            PlanKind::Test => "test",
            PlanKind::Build => "build",
        }
    }
}

// ---------------------------------------------------------------------------
// Run steps
// ---------------------------------------------------------------------------

/// Why a run step is refused: the host runs nothing as root, and the interpreter
/// must be one that can be resolved.
pub open spec fn run_error(kind: PlanKind, step: RunStep) -> Option<Seq<char>> {
    if step.target == StepTarget::Host && step.sudo == Some(true) {
        Some(
            kind.word() + " step '"@ + step.name@
                + "': 'sudo: true' is only supported on 'on: guest' steps"@,
        )
    } else {
        match shell_template(opt_text(step.shell)) {
            Ok(_) => None,
            Err(e) => Some(
                in_context(
                    kind.word() + " step '"@ + step.name@ + "': invalid `shell:` value"@,
                    e,
                ),
            ),
        }
    }
}

fn check_run_step(kind: PlanKind, step: &RunStep) -> (r: Result<(), PlanError>)
    ensures
        outcome(r, run_error(kind, *step)),
{
    let as_root = match step.sudo {
        Some(sudo) => sudo,
        None => false,
    };
    if step.target == StepTarget::Host && as_root {
        return Err(
            PlanError::new(
                cat4(
                    kind.as_str(),
                    " step '",
                    step.name.as_str(),
                    "': 'sudo: true' is only supported on 'on: guest' steps",
                ),
            ),
        );
    }
    let shell = match &step.shell {
        Some(shell) => Some(shell.as_str()),
        None => None,
    };
    assert(opt_slice(shell) == opt_text(step.shell));
    match resolve_shell(shell) {
        Ok(_) => Ok(()),
        Err(e) => {
            let context = cat4(
                kind.as_str(),
                " step '",
                step.name.as_str(),
                "': invalid `shell:` value",
            );
            Err(e.within(context.as_str()))
        },
    }
}

// ---------------------------------------------------------------------------
// Archive steps
// ---------------------------------------------------------------------------

/// Why an archive step of a build is refused, without the step's name.
pub open spec fn archive_fault(step: ArchiveStep) -> Option<Seq<char>> {
    let src = trim(step.archive.src@);
    if src.len() == 0 {
        Some("archive `src` is required and must be non-empty"@)
    } else {
        match reference_of(src) {
            Err(_) => Some("archive `src` must start with '@'"@),
            Ok(reference) => if !(reference matches ReferenceView::Asset { name, path: None }) {
                if find(src, "://"@) is Some {
                    Some("archive `src` does not support '@://' traversal"@)
                } else {
                    Some("archive `src` must include a shasset name after '@'"@)
                }
            } else if step.run is Some {
                Some("`run` is not valid on an `archive` step"@)
            } else if step.shell is Some {
                Some("`shell` is not valid on an `archive` step"@)
            } else if step.timeout is Some {
                Some("`timeout` is not valid on an `archive` step"@)
            } else if step.target != Some(StepTarget::Guest) {
                if step.archive.dest is Some {
                    Some(
                        "`dest` is only valid on `on: guest` archive steps; omit `dest` for host-mode extraction into the build directory"@,
                    )
                } else {
                    None
                }
            } else {
                match step.archive.dest {
                    Some(dest) if trim(dest@).len() > 0 => if starts_with(dest@, "/"@) {
                        None
                    } else {
                        Some("archive `dest` must be an absolute path (got '"@ + dest@ + "')"@)
                    },
                    _ => Some(
                        "`on: guest` archive step requires `dest` (an absolute guest path to extract into)"@,
                    ),
                }
            },
        }
    }
}

/// Why an archive step of a build is refused.
pub open spec fn archive_error(step: ArchiveStep) -> Option<Seq<char>> {
    match archive_fault(step) {
        Some(fault) => Some("build step '"@ + step.archive.label() + "': "@ + fault),
        None => None,
    }
}

/// What is wrong with an archive step of a build, without the step's name.
fn find_archive_fault(step: &ArchiveStep) -> (r: Option<String>)
    ensures
        opt_text(r) == archive_fault(*step),
{
    let src = trimmed(step.archive.src.as_str());
    if src.as_str().is_empty() {
        return Some("archive `src` is required and must be non-empty".to_owned());
    }
    let reference = match Reference::parse(src.as_str()) {
        Ok(reference) => reference,
        Err(_) => {
            return Some("archive `src` must start with '@'".to_owned());
        },
    };
    let whole_asset = match &reference {
        Reference::Asset { path: None, .. } => true,
        _ => false,
    };
    if !whole_asset {
        if contains(src.as_str(), "://") {
            return Some("archive `src` does not support '@://' traversal".to_owned());
        }
        return Some("archive `src` must include a shasset name after '@'".to_owned());
    }
    if step.run.is_some() {
        return Some("`run` is not valid on an `archive` step".to_owned());
    }
    if step.shell.is_some() {
        return Some("`shell` is not valid on an `archive` step".to_owned());
    }
    if step.timeout.is_some() {
        return Some("`timeout` is not valid on an `archive` step".to_owned());
    }
    let on_guest = match step.target {
        Some(StepTarget::Guest) => true,
        _ => false,
    };
    if !on_guest {
        if step.archive.dest.is_some() {
            return Some(
                "`dest` is only valid on `on: guest` archive steps; omit `dest` for host-mode extraction into the build directory".to_owned(),
            );
        }
        return None;
    }
    match &step.archive.dest {
        Some(dest) => {
            if is_blank(dest.as_str()) {
                Some(
                    "`on: guest` archive step requires `dest` (an absolute guest path to extract into)".to_owned(),
                )
            } else if !has_prefix(dest.as_str(), "/") {
                Some(
                    cat3(
                        "archive `dest` must be an absolute path (got '",
                        dest.as_str(),
                        "')",
                    ),
                )
            } else {
                None
            }
        },
        None => Some(
            "`on: guest` archive step requires `dest` (an absolute guest path to extract into)".to_owned(),
        ),
    }
}

/// Accepts an archive step of a build: a whole asset as its source, nothing of a
/// run step, and a destination on the guest exactly if it unpacks there.
pub fn validate_archive_build_step(step: &ArchiveStep) -> (r: Result<(), PlanError>)
    ensures
        outcome(r, archive_error(*step)),
{
    match find_archive_fault(step) {
        Some(fault) => Err(
            PlanError::new(
                cat4("build step '", step.archive.shown_name(), "': ", fault.as_str()),
            ),
        ),
        None => Ok(()),
    }
}

// ---------------------------------------------------------------------------
// All steps
// ---------------------------------------------------------------------------

/// Why a step is refused.
pub open spec fn step_error(kind: PlanKind, step: TestStep) -> Option<Seq<char>>
    decreases step, 0nat,
{
    match step {
        TestStep::Run(run) => run_error(kind, run),
        TestStep::Archive(archive) => match kind {
            PlanKind::Build => archive_error(archive),
            PlanKind::Test => Some(
                "test step '"@ + archive.archive.label()
                    + "': `archive` steps are only supported in `type: build` documents"@,
            ),
        },
        TestStep::Invoke(invoke) => steps_error(kind, invoke.steps@, invoke.steps@.len()),
    }
}

/// Why the first of `n` steps that is refused is refused.
pub open spec fn steps_error(kind: PlanKind, steps: Seq<TestStep>, n: nat) -> Option<Seq<char>>
    decreases steps, n,
{
    if n == 0 || n > steps.len() {
        None
    } else {
        first_error(
            steps_error(kind, steps, (n - 1) as nat),
            step_error(kind, steps[n - 1]),
        )
    }
}

/// Whether a step runs on the host, itself or in a fragment.
pub open spec fn on_host(step: TestStep) -> bool
    decreases step, 0nat,
{
    match step {
        TestStep::Run(run) => run.target == StepTarget::Host,
        TestStep::Archive(_) => false,
        TestStep::Invoke(invoke) => some_on_host(invoke.steps@, invoke.steps@.len()),
    }
}

/// Whether one of the first `n` steps runs on the host.
pub open spec fn some_on_host(steps: Seq<TestStep>, n: nat) -> bool
    decreases steps, n,
{
    if n == 0 || n > steps.len() {
        false
    } else {
        some_on_host(steps, (n - 1) as nat) || on_host(steps[n - 1])
    }
}

proof fn lemma_steps_error_stays(kind: PlanKind, steps: Seq<TestStep>, n: nat, m: nat)
    requires
        n <= m <= steps.len(),
        steps_error(kind, steps, n) is Some,
    ensures
        steps_error(kind, steps, m) == steps_error(kind, steps, n),
    decreases m,
{
    if n < m {
        lemma_steps_error_stays(kind, steps, n, (m - 1) as nat);
    }
}

fn check_steps(kind: PlanKind, steps: &[TestStep]) -> (r: Result<(), PlanError>)
    ensures
        outcome(r, steps_error(kind, steps@, steps@.len())),
    decreases steps@, 1nat,
{
    let mut i: usize = 0;
    while i < steps.len()
        invariant
            i <= steps@.len(),
            steps_error(kind, steps@, i as nat) is None,
        decreases steps@.len() - i,
    {
        let r = check_step(kind, &steps[i]);
        if r.is_err() {
            proof {
                lemma_steps_error_stays(kind, steps@, (i + 1) as nat, steps@.len());
            }
            return r;
        }
        i += 1;
    }
    Ok(())
}

fn check_step(kind: PlanKind, step: &TestStep) -> (r: Result<(), PlanError>)
    ensures
        outcome(r, step_error(kind, *step)),
    decreases step, 0nat,
{
    match step {
        TestStep::Run(run) => check_run_step(kind, run),
        TestStep::Archive(archive) => match kind {
            PlanKind::Build => validate_archive_build_step(archive),
            PlanKind::Test => Err(
                PlanError::new(
                    cat3(
                        "test step '",
                        archive.archive.shown_name(),
                        "': `archive` steps are only supported in `type: build` documents",
                    ),
                ),
            ),
        },
        TestStep::Invoke(invoke) => check_steps(kind, invoke.steps.as_slice()),
    }
}

fn any_on_host(steps: &[TestStep]) -> (r: bool)
    ensures
        r == some_on_host(steps@, steps@.len()),
    decreases steps@, 1nat,
{
    let mut found = false;
    let mut i: usize = 0;
    while i < steps.len()
        invariant
            i <= steps@.len(),
            found == some_on_host(steps@, i as nat),
        decreases steps@.len() - i,
    {
        let here = step_on_host(&steps[i]);
        found = found || here;
        i += 1;
    }
    found
}

fn step_on_host(step: &TestStep) -> (r: bool)
    ensures
        r == on_host(*step),
    decreases step, 0nat,
{
    match step {
        TestStep::Run(run) => run.target == StepTarget::Host,
        TestStep::Archive(_) => false,
        TestStep::Invoke(invoke) => any_on_host(invoke.steps.as_slice()),
    }
}

/// Why the steps of a test are refused: because of a step, or because a step runs on
/// the host and there is no port through which it reaches the guest.
pub open spec fn test_steps_error(steps: Seq<TestStep>, ports: Seq<PortSpec>) -> Option<
    Seq<char>,
> {
    first_error(
        steps_error(PlanKind::Test, steps, steps.len()),
        if some_on_host(steps, steps.len()) && ports.len() == 0 {
            Some(
                "test config has `on: host` steps but no `ports:` are declared; a host step reaches the guest only via forwarded ports"@,
            )
        } else {
            None
        },
    )
}

/// Accepts the steps of a test.
pub fn validate_test_steps(steps: &[TestStep], ports: &[PortSpec]) -> (r: Result<(), PlanError>)
    ensures
        outcome(r, test_steps_error(steps@, ports@)),
{
    let r = check_steps(PlanKind::Test, steps);
    if r.is_err() {
        return r;
    }
    if any_on_host(steps) && ports.len() == 0 {
        return Err(
            PlanError::text(
                "test config has `on: host` steps but no `ports:` are declared; a host step reaches the guest only via forwarded ports",
            ),
        );
    }
    Ok(())
}

/// Accepts the steps of a build.
pub fn validate_build_steps(steps: &[TestStep]) -> (r: Result<(), PlanError>)
    ensures
        outcome(r, steps_error(PlanKind::Build, steps@, steps@.len())),
{
    check_steps(PlanKind::Build, steps)
}

/// Steps are accepted exactly if each of them is.
pub proof fn steps_accepted_iff(kind: PlanKind, steps: Seq<TestStep>)
    ensures
        steps_error(kind, steps, steps.len()) is None <==> forall|i: int|
            0 <= i < steps.len() ==> step_error(kind, #[trigger] steps[i]) is None,
{
    lemma_steps_accepted(kind, steps, steps.len());
}

proof fn lemma_steps_accepted(kind: PlanKind, steps: Seq<TestStep>, n: nat)
    requires
        n <= steps.len(),
    ensures
        steps_error(kind, steps, n) is None <==> forall|i: int|
            0 <= i < n ==> step_error(kind, #[trigger] steps[i]) is None,
    decreases n,
{
    if n > 0 {
        lemma_steps_accepted(kind, steps, (n - 1) as nat);
        assert(step_error(kind, steps[n - 1]) == step_error(kind, steps[n - 1]));
    }
}

/// A run step that was accepted has an interpreter, and does not run as root on the
/// host.
pub proof fn accepted_runs_can_start(kind: PlanKind, step: RunStep)
    requires
        step_error(kind, TestStep::Run(step)) is None,
    ensures
        shell_template(opt_text(step.shell)) is Ok,
        step.target == StepTarget::Host ==> step.sudo != Some(true),
{
}

// ---------------------------------------------------------------------------
// The output of a build
// ---------------------------------------------------------------------------

/// Why the file name of a build's output is refused.
pub open spec fn output_error(output: Seq<char>) -> Option<Seq<char>> {
    if starts_with(output, "/"@) {
        Some("output filename must be a bare filename, got absolute path"@)
    } else if output.len() == 0 || output == "."@ || output == ".."@ || output.contains('/')
        || output.contains('\\') {
        Some(
            "output filename must be a bare filename with no path segments, got '"@ + output
                + "'"@,
        )
    } else {
        None
    }
}

/// Accepts a bare file name: no path separator, and neither empty nor `.` nor `..`.
pub fn validate_build_output_filename(output: &str) -> (r: Result<&str, PlanError>)
    ensures
        outcome(r, output_error(output@)),
        r matches Ok(name) ==> name@ == output@,
{
    if has_prefix(output, "/") {
        return Err(
            PlanError::text("output filename must be a bare filename, got absolute path"),
        );
    }
    if output.is_empty() || same(output, ".") || same(output, "..") || contains_char(output, '/')
        || contains_char(output, '\\') {
        return Err(
            PlanError::new(
                cat3(
                    "output filename must be a bare filename with no path segments, got '",
                    output,
                    "'",
                ),
            ),
        );
    }
    Ok(output)
}

} // verus!
