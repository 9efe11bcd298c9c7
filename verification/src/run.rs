//! The run of one step: what to do, one action after another.

use vstd::prelude::*;
use vstd::string::*;

use crate::budget::{Retries, SMALL_COMMAND_SECS, STEP_CONNECT_SECS, one_try, transport_tries};
use crate::env::{env_entries, env_merge, last_value, merge_last_write_wins, merged, parse_env_file};
use crate::error::{PlanError, in_context, outcome};
use crate::expect::{StepCapture, check_expect_block, expect_error};
use crate::guest::{
    GuestStepFiles, build_step_cmd, cleanup_cmd, command_meaning, env_meaning, files_init,
    guest_commands_carry_their_values, guest_files_init_cmd, host_env, read_cmd, step_command,
    with_script,
};
use crate::outputs::{capture_step_outputs, declared_outputs, opt_captured, read_view, step_outputs};
use crate::pairs::{Pair, lemma_entry_of, pairs, value_of};
use crate::paths::{join_path, joined_path};
use crate::shell::{command_words, is_literal_word, quoted};
use crate::staging::opt_error;
use crate::step::{
    CapturedView, RunStep, fallback_template, resolve_shell, sh_command, shell_template,
};
use crate::strings::{cat2, cat3};
use crate::text::{ends_with, lines, opt_text, texts};

verus! {

/// Where a step runs, and for what.
#[derive(Clone, Copy, Debug, PartialEq, Eq, Structural)]
pub enum StepPlace {
    /// In the guest.
    Guest,
    /// On the host.
    Host,
    /// On the host, to prepare a publication. The outputs of such a step are not kept.
    Publish,
}

/// How far the run of a step has come.
#[derive(Clone, Copy, Debug, PartialEq, Eq, Structural)]
pub enum RunPhase {
    Start,
    /// The script is written on the host.
    Writing,
    /// The script is copied to the guest.
    Uploading,
    /// The files that the script may write to are made.
    Preparing,
    /// The script runs.
    Executing,
    /// The variables that the script wrote are read.
    ReadingEnv,
    /// The outputs that the script wrote are read.
    ReadingOut,
    /// The files of the step are removed.
    Cleaning,
    /// The script is removed from the host.
    CleaningLocal,
    Finished,
}

/// The run of a step.
#[derive(Debug, PartialEq, Eq)]
pub struct StepRun {
    pub place: StepPlace,
    /// The script.
    pub body: String,
    /// The script on the host, for a step in the guest.
    pub local_script: String,
    /// The script in the guest, for a step in the guest.
    pub remote_script: String,
    /// The file that the script may write variables to.
    pub env_path: String,
    /// The file that the script may write outputs to.
    pub out_path: String,
    pub phase: RunPhase,
    /// How the step fails, as far as that is known.
    pub failure: Option<PlanError>,
}

/// What happened since the last action.
#[derive(Debug, PartialEq, Eq)]
pub enum RunEvent {
    /// The action ended.
    Ended(Result<(), PlanError>),
    /// The script ran, and exited with that code.
    Executed(Result<(StepCapture, i32), PlanError>),
    /// A file was read.
    Read(Result<String, PlanError>),
}

/// What to do next.
#[derive(Debug, PartialEq, Eq)]
pub enum RunAction {
    /// Write the script to that file of the host.
    WriteScript { path: String, body: String },
    /// Copy that file of the host to that place in the guest, tried that often.
    Upload { from: String, to: String, retries: Retries },
    /// Run that command in the guest, that often and within that many seconds. How it ends
    /// does not matter.
    RunInGuest { command: String, retries: Retries, secs: u64 },
    /// Run the step's command in the guest, tried that often, with so many seconds for the
    /// connection. `capture` tells whether what it writes is kept and its exit code handed
    /// back.
    Execute { command: String, capture: bool, retries: Retries, connect_secs: u64 },
    /// Run the script on the host under that interpreter, with those variables. Where it is
    /// not there, run it under `fallback`, if there is one.
    ExecuteOnHost {
        template: Vec<String>,
        fallback: Option<Vec<String>>,
        env: Vec<(String, String)>,
        capture: bool,
    },
    /// Read what that command prints in the guest, tried that often and within that many
    /// seconds.
    ReadFromGuest { command: String, retries: Retries, secs: u64 },
    /// Read that file of the host.
    ReadFile { path: String },
    /// Remove those files of the host. How that ends does not matter.
    RemoveFiles { paths: Vec<String> },
    Done(Result<(), PlanError>),
}

/// What the run of a step changes, in the terms of the model.
#[verifier::ext_equal]
pub struct RunState {
    pub phase: RunPhase,
    pub failure: Option<Seq<char>>,
    pub env: Seq<Pair>,
    pub outputs: Option<Seq<CapturedView>>,
}

/// The model of a run with the step and the variables that it works on.
pub open spec fn run_state(run: StepRun, step: RunStep, env: Seq<(String, String)>) -> RunState {
    RunState {
        phase: run.phase,
        failure: opt_error(run.failure),
        env: pairs(env),
        outputs: opt_captured(step.captured_outputs),
    }
}

/// The contents of a list of texts, if there is one.
pub open spec fn opt_texts(list: Option<Vec<String>>) -> Option<Seq<Seq<char>>> {
    match list {
        Some(v) => Some(texts(v@)),
        None => None,
    }
}

/// Whether the outcome of a step is held against what is expected of it.
pub open spec fn judged(step: RunStep) -> bool {
    step.expect is Some
}

/// What a run waits for in a phase.
pub open spec fn awaits(step: RunStep, phase: RunPhase, event: RunEvent) -> bool {
    match phase {
        RunPhase::Executing => if judged(step) {
            event is Executed
        } else {
            event is Ended
        },
        RunPhase::ReadingEnv | RunPhase::ReadingOut => event is Read,
        _ => event is Ended,
    }
}

/// The message that the command of a step failed.
pub open spec fn command_failed(place: StepPlace, name: Seq<char>) -> Seq<char> {
    (if place == StepPlace::Publish {
        "publish step '"@
    } else {
        "test step '"@
    }) + name + "' command failed"@
}

/// The variables after those were read that a script wrote, if they could be read.
pub open spec fn env_after(env: Seq<Pair>, read: Result<String, PlanError>) -> Seq<Pair> {
    match read {
        Ok(text) => match env_entries(lines(text@)) {
            Ok(new) => merged(env, new),
            Err(_) => env,
        },
        Err(_) => env,
    }
}

/// The outputs of a step, from what reading them gave. On the host, a file that cannot
/// be read counts as empty.
pub open spec fn outputs_after(
    place: StepPlace,
    step: RunStep,
    read: Result<String, PlanError>,
) -> Result<Seq<CapturedView>, Seq<char>> {
    if place == StepPlace::Guest {
        declared_outputs(step, read_view(read))
    } else {
        declared_outputs(
            step,
            Ok(
                match read {
                    Ok(text) => text@,
                    Err(_) => seq![],
                },
            ),
        )
    }
}

/// The state that follows when `event` happens.
pub open spec fn run_next(
    place: StepPlace,
    step: RunStep,
    state: RunState,
    event: RunEvent,
) -> RunState {
    let name = step.name@;
    match state.phase {
        RunPhase::Start => RunState {
            phase: if place == StepPlace::Guest {
                RunPhase::Writing
            } else {
                RunPhase::Executing
            },
            ..state
        },
        RunPhase::Writing => match event->Ended_0 {
            Err(e) => RunState {
                phase: RunPhase::Finished,
                failure: Some(
                    in_context("test step '"@ + name + "': failed to write script file"@, e@),
                ),
                ..state
            },
            Ok(()) => RunState { phase: RunPhase::Uploading, ..state },
        },
        RunPhase::Uploading => match event->Ended_0 {
            Err(e) => RunState {
                phase: if judged(step) {
                    RunPhase::Finished
                } else {
                    RunPhase::Cleaning
                },
                failure: Some(
                    in_context("test step '"@ + name + "' script upload failed"@, e@),
                ),
                ..state
            },
            Ok(()) => RunState { phase: RunPhase::Preparing, ..state },
        },
        RunPhase::Preparing => RunState { phase: RunPhase::Executing, ..state },
        RunPhase::Executing => match step.expect {
            Some(expect) => match event->Executed_0 {
                Err(e) => RunState {
                    phase: RunPhase::Finished,
                    failure: Some(in_context(command_failed(place, name), e@)),
                    ..state
                },
                Ok((capture, exit)) => RunState {
                    phase: RunPhase::ReadingEnv,
                    failure: expect_error(name, expect, capture, exit),
                    ..state
                },
            },
            None => match event->Ended_0 {
                Err(e) => RunState {
                    phase: RunPhase::Cleaning,
                    failure: Some(in_context(command_failed(place, name), e@)),
                    ..state
                },
                Ok(()) => RunState { phase: RunPhase::ReadingEnv, failure: None, ..state },
            },
        },
        RunPhase::ReadingEnv => RunState {
            phase: if state.failure is None && place != StepPlace::Publish && step.outputs@.len()
                > 0 {
                RunPhase::ReadingOut
            } else {
                RunPhase::Cleaning
            },
            env: env_after(state.env, event->Read_0),
            ..state
        },
        RunPhase::ReadingOut => match outputs_after(place, step, event->Read_0) {
            Err(e) => RunState { phase: RunPhase::Finished, failure: Some(e), ..state },
            Ok(outputs) => RunState {
                phase: RunPhase::Cleaning,
                outputs: Some(outputs),
                ..state
            },
        },
        RunPhase::Cleaning => RunState {
            phase: if place == StepPlace::Guest {
                RunPhase::CleaningLocal
            } else {
                RunPhase::Finished
            },
            ..state
        },
        RunPhase::CleaningLocal => RunState { phase: RunPhase::Finished, ..state },
        RunPhase::Finished => state,
    }
}

/// Whether `action` is to run `command` in the guest once, as a small command.
pub open spec fn runs_small(action: RunAction, command: Seq<char>) -> bool {
    match action {
        RunAction::RunInGuest { command: c, retries, secs } => c@ == command && retries
            == one_try() && secs == SMALL_COMMAND_SECS,
        _ => false,
    }
}

/// Whether `action` is to read what `command` prints in the guest once, as a small command.
pub open spec fn reads_small(action: RunAction, command: Seq<char>) -> bool {
    match action {
        RunAction::ReadFromGuest { command: c, retries, secs } => c@ == command && retries
            == one_try() && secs == SMALL_COMMAND_SECS,
        _ => false,
    }
}

/// What a run does in a state.
pub open spec fn acts(run: StepRun, step: RunStep, state: RunState, action: RunAction) -> bool {
    let guest = run.place == StepPlace::Guest;
    match state.phase {
        RunPhase::Start => false,
        RunPhase::Writing => action matches RunAction::WriteScript { path, body } && path@
            == run.local_script@ && body@ == run.body@,
        RunPhase::Uploading => action matches RunAction::Upload { from, to, retries } && from@
            == run.local_script@ && to@ == run.remote_script@ && retries == transport_tries(),
        RunPhase::Preparing => runs_small(
            action,
            files_init(run.env_path@, run.out_path@),
        ),
        RunPhase::Executing => if guest {
            action matches RunAction::Execute { command, capture, retries, connect_secs }
                && retries == transport_tries() && connect_secs == STEP_CONNECT_SECS && command@
                == step_command(
                opt_text(step.shell),
                run.remote_script@,
                step.as_root(),
                state.env,
                run.env_path@,
                run.out_path@,
            ) && capture == judged(step)
        } else {
            action matches RunAction::ExecuteOnHost { template, fallback, env, capture } && texts(
                template@,
            ) == shell_template(opt_text(step.shell))->Ok_0 && opt_texts(fallback)
                == fallback_template(opt_text(step.shell)) && pairs(env@) == merged(
                seq![("BF_ENV"@, run.env_path@), ("BF_OUT"@, run.out_path@)],
                state.env,
            ) && capture == judged(step)
        },
        RunPhase::ReadingEnv => if guest {
            reads_small(action, "cat "@ + quoted(run.env_path@))
        } else {
            action matches RunAction::ReadFile { path } && path@ == run.env_path@
        },
        RunPhase::ReadingOut => if guest {
            reads_small(action, "cat "@ + quoted(run.out_path@))
        } else {
            action matches RunAction::ReadFile { path } && path@ == run.out_path@
        },
        RunPhase::Cleaning => if guest {
            runs_small(
                action,
                "rm -f "@ + quoted(run.out_path@) + " "@ + quoted(run.env_path@) + " "@ + quoted(
                    run.remote_script@,
                ),
            )
        } else {
            action matches RunAction::RemoveFiles { paths } && texts(paths@) == seq![
                run.env_path@,
                run.out_path@,
            ]
        },
        RunPhase::CleaningLocal => action matches RunAction::RemoveFiles { paths } && texts(
            paths@,
        ) == seq![run.local_script@],
        RunPhase::Finished => action matches RunAction::Done(r) && outcome(r, state.failure),
    }
}

impl StepRun {
    /// The run of a step in the guest that has not begun.
    pub fn in_guest(files: GuestStepFiles, body: String) -> (r: StepRun)
        ensures
            r.place == StepPlace::Guest,
            r.body == body,
            r.local_script == files.local_script,
            r.remote_script == files.remote_script,
            r.env_path == files.remote_env_path,
            r.out_path == files.remote_out_path,
            r.phase == RunPhase::Start,
            r.failure is None,
    {
        StepRun {
            place: StepPlace::Guest,
            body,
            local_script: files.local_script,
            remote_script: files.remote_script,
            env_path: files.remote_env_path,
            out_path: files.remote_out_path,
            phase: RunPhase::Start,
            failure: None,
        }
    }

    /// The run of a step on the host that has not begun. Its files stand in `temp_dir`;
    /// `suffix` tells runs apart.
    pub fn on_host(publish: bool, temp_dir: &str, suffix: &str, body: String) -> (r: StepRun)
        ensures
            r.place == if publish {
                StepPlace::Publish
            } else {
                StepPlace::Host
            },
            r.body == body,
            r.env_path@ == joined_path(
                temp_dir@,
                (if publish {
                    "botforge-publish-env-"@
                } else {
                    "botforge-host-env-"@
                }) + suffix@,
            ),
            r.out_path@ == joined_path(
                temp_dir@,
                (if publish {
                    "botforge-publish-out-"@
                } else {
                    "botforge-host-out-"@
                }) + suffix@,
            ),
            r.phase == RunPhase::Start,
            r.failure is None,
    {
        let (env_name, out_name) = if publish {
            (cat2("botforge-publish-env-", suffix), cat2("botforge-publish-out-", suffix))
        } else {
            (cat2("botforge-host-env-", suffix), cat2("botforge-host-out-", suffix))
        };
        StepRun {
            place: if publish {
                StepPlace::Publish
            } else {
                StepPlace::Host
            },
            body,
            local_script: String::new(),
            remote_script: String::new(),
            env_path: join_path(temp_dir, env_name.as_str()),
            out_path: join_path(temp_dir, out_name.as_str()),
            phase: RunPhase::Start,
            failure: None,
        }
    }
}

fn shell_of(step: &RunStep) -> (r: Vec<String>)
    requires
        shell_template(opt_text(step.shell)) is Ok,
    ensures
        texts(r@) == shell_template(opt_text(step.shell))->Ok_0,
{
    let shell = match &step.shell {
        Some(s) => Some(s.as_str()),
        None => None,
    };
    match resolve_shell(shell) {
        Ok(template) => template,
        Err(_) => Vec::new(),
    }
}

/// What a run does in the phase that it is in.
fn run_action(run: &StepRun, step: &RunStep, env: &Vec<(String, String)>) -> (action: RunAction)
    requires
        run.phase != RunPhase::Start,
        shell_template(opt_text(step.shell)) is Ok,
    ensures
        acts(*run, *step, run_state(*run, *step, env@), action),
{
    let guest = match run.place {
        StepPlace::Guest => true,
        _ => false,
    };
    match run.phase {
        RunPhase::Start | RunPhase::Finished => match &run.failure {
            Some(e) => RunAction::Done(Err(e.clone())),
            None => RunAction::Done(Ok(())),
        },
        RunPhase::Writing => RunAction::WriteScript {
            path: run.local_script.clone(),
            body: run.body.clone(),
        },
        RunPhase::Uploading => RunAction::Upload {
            from: run.local_script.clone(),
            to: run.remote_script.clone(),
            retries: Retries::often(),
        },
        RunPhase::Preparing => RunAction::RunInGuest {
            command: guest_files_init_cmd(run.env_path.as_str(), run.out_path.as_str()),
            retries: Retries::once(),
            secs: SMALL_COMMAND_SECS,
        },
        RunPhase::Executing => {
            let template = shell_of(step);
            let capture = step.expect.is_some();
            if guest {
                let command = build_step_cmd(
                    &step.shell,
                    template.as_slice(),
                    run.remote_script.as_str(),
                    step.sudo_enabled(),
                    env.as_slice(),
                    run.env_path.as_str(),
                    run.out_path.as_str(),
                );
                RunAction::Execute {
                    command,
                    capture,
                    retries: Retries::often(),
                    connect_secs: STEP_CONNECT_SECS,
                }
            } else {
                let vars = host_env(
                    env.as_slice(),
                    run.env_path.as_str(),
                    run.out_path.as_str(),
                );
                let fallback = if step.shell.is_some() {
                    None
                } else {
                    Some(sh_command())
                };
                RunAction::ExecuteOnHost { template, fallback, env: vars, capture }
            }
        },
        RunPhase::ReadingEnv => if guest {
            RunAction::ReadFromGuest {
                command: read_cmd(run.env_path.as_str()),
                retries: Retries::once(),
                secs: SMALL_COMMAND_SECS,
            }
        } else {
            RunAction::ReadFile { path: run.env_path.clone() }
        },
        RunPhase::ReadingOut => if guest {
            RunAction::ReadFromGuest {
                command: read_cmd(run.out_path.as_str()),
                retries: Retries::once(),
                secs: SMALL_COMMAND_SECS,
            }
        } else {
            RunAction::ReadFile { path: run.out_path.clone() }
        },
        RunPhase::Cleaning => if guest {
            RunAction::RunInGuest {
                command: cleanup_cmd(
                    run.out_path.as_str(),
                    run.env_path.as_str(),
                    run.remote_script.as_str(),
                ),
                retries: Retries::once(),
                secs: SMALL_COMMAND_SECS,
            }
        } else {
            let paths: Vec<String> = vec![run.env_path.clone(), run.out_path.clone()];
            assert(texts(paths@) =~= seq![run.env_path@, run.out_path@]);
            RunAction::RemoveFiles { paths }
        },
        RunPhase::CleaningLocal => {
            let paths: Vec<String> = vec![run.local_script.clone()];
            assert(texts(paths@) =~= seq![run.local_script@]);
            RunAction::RemoveFiles { paths }
        },
    }
}

fn merge_read(env: &mut Vec<(String, String)>, read: &Result<String, PlanError>)
    ensures
        pairs(final(env)@) == env_after(pairs(old(env)@), *read),
{
    if let Ok(text) = read {
        if let Ok(new) = parse_env_file(text.as_str()) {
            env_merge(env, new);
        }
    }
}

fn failed_command(place: StepPlace, name: &str, error: &PlanError) -> (e: PlanError)
    ensures
        e@ == in_context(command_failed(place, name@), error@),
{
    let lead = match place {
        StepPlace::Publish => "publish step '",
        _ => "test step '",
    };
    let context = cat3(lead, name, "' command failed");
    error.within(context.as_str())
}

/// Runs a step: takes what happened since the last action and says what to do next.
///
/// A script for the guest is written, copied there and run under its interpreter, with
/// the variables of earlier steps; a step that names no interpreter runs under `sh` where
/// `bash` is not there. When it has run, the variables that it wrote are
/// merged in, and its outputs are stored if it did what is expected of it. Its files are
/// removed at the end; but where the outcome is held against expectations, a script
/// that could not be copied or run at all ends the run at once, and so do outputs that
/// cannot be stored.
pub fn run_run_step(
    run: &mut StepRun,
    step: &mut RunStep,
    env: &mut Vec<(String, String)>,
    event: RunEvent,
) -> (action: RunAction)
    requires
        awaits(*old(step), old(run).phase, event),
        shell_template(opt_text(old(step).shell)) is Ok,
    ensures
        run_state(*final(run), *final(step), final(env)@) == run_next(
            old(run).place,
            *old(step),
            run_state(*old(run), *old(step), old(env)@),
            event,
        ),
        acts(
            *old(run),
            *old(step),
            run_state(*final(run), *final(step), final(env)@),
            action,
        ),
        final(run).place == old(run).place,
        final(run).body == old(run).body,
        final(run).local_script == old(run).local_script,
        final(run).remote_script == old(run).remote_script,
        final(run).env_path == old(run).env_path,
        final(run).out_path == old(run).out_path,
        *final(step) == (RunStep {
            captured_outputs: final(step).captured_outputs,
            ..*old(step)
        }),
{
    let ghost before = run_state(*run, *step, env@);
    let judging = step.expect.is_some();
    match run.phase {
        RunPhase::Start => {
            run.phase = match run.place {
                StepPlace::Guest => RunPhase::Writing,
                _ => RunPhase::Executing,
            };
        },
        RunPhase::Writing => {
            if let RunEvent::Ended(Err(e)) = &event {
                let context = cat3(
                    "test step '",
                    step.name.as_str(),
                    "': failed to write script file",
                );
                run.failure = Some(e.within(context.as_str()));
                run.phase = RunPhase::Finished;
            } else {
                run.phase = RunPhase::Uploading;
            }
        },
        RunPhase::Uploading => {
            if let RunEvent::Ended(Err(e)) = &event {
                let context = cat3("test step '", step.name.as_str(), "' script upload failed");
                run.failure = Some(e.within(context.as_str()));
                run.phase = if judging {
                    RunPhase::Finished
                } else {
                    RunPhase::Cleaning
                };
            } else {
                run.phase = RunPhase::Preparing;
            }
        },
        RunPhase::Preparing => {
            run.phase = RunPhase::Executing;
        },
        RunPhase::Executing => {
            executed(run, step, &event);
        },
        RunPhase::ReadingEnv => {
            if let RunEvent::Read(read) = &event {
                merge_read(env, read);
            }
            let publish = match run.place {
                StepPlace::Publish => true,
                _ => false,
            };
            run.phase = if run.failure.is_none() && !publish && step.outputs.len() > 0 {
                RunPhase::ReadingOut
            } else {
                RunPhase::Cleaning
            };
        },
        RunPhase::ReadingOut => {
            if let RunEvent::Read(read) = event {
                read_outputs(run, step, read);
            }
        },
        RunPhase::Cleaning => {
            run.phase = match run.place {
                StepPlace::Guest => RunPhase::CleaningLocal,
                _ => RunPhase::Finished,
            };
        },
        RunPhase::CleaningLocal => {
            run.phase = RunPhase::Finished;
        },
        RunPhase::Finished => {},
    }
    run_action(run, step, env)
}

fn executed(run: &mut StepRun, step: &RunStep, event: &RunEvent)
    requires
        old(run).phase == RunPhase::Executing,
        awaits(*step, RunPhase::Executing, *event),
    ensures
        forall|env: Seq<(String, String)>|
            #![trigger run_state(*final(run), *step, env)]
            run_state(*final(run), *step, env) == run_next(
                old(run).place,
                *step,
                run_state(*old(run), *step, env),
                *event,
            ),
        *final(run) == (StepRun {
            phase: final(run).phase,
            failure: final(run).failure,
            ..*old(run)
        }),
{
    match &step.expect {
        Some(expect) => {
            if let RunEvent::Executed(result) = event {
                match result {
                    Err(e) => {
                        run.failure = Some(failed_command(run.place, step.name.as_str(), e));
                        run.phase = RunPhase::Finished;
                    },
                    Ok(done) => {
                        run.failure = match check_expect_block(
                            step.name.as_str(),
                            expect,
                            &done.0,
                            done.1,
                        ) {
                            Ok(()) => None,
                            Err(e) => Some(e),
                        };
                        run.phase = RunPhase::ReadingEnv;
                    },
                }
            }
        },
        None => {
            if let RunEvent::Ended(result) = event {
                match result {
                    Err(e) => {
                        run.failure = Some(failed_command(run.place, step.name.as_str(), e));
                        run.phase = RunPhase::Cleaning;
                    },
                    Ok(()) => {
                        run.failure = None;
                        run.phase = RunPhase::ReadingEnv;
                    },
                }
            }
        },
    }
}

fn read_outputs(run: &mut StepRun, step: &mut RunStep, read: Result<String, PlanError>)
    requires
        old(run).phase == RunPhase::ReadingOut,
    ensures
        *final(step) == (RunStep {
            captured_outputs: final(step).captured_outputs,
            ..*old(step)
        }),
        *final(run) == (StepRun {
            phase: final(run).phase,
            failure: final(run).failure,
            ..*old(run)
        }),
        match outputs_after(old(run).place, *old(step), read) {
            Err(e) => {
                &&& final(run).phase == RunPhase::Finished
                &&& opt_error(final(run).failure) == Some(e)
                &&& *final(step) == *old(step)
            },
            Ok(outputs) => {
                &&& final(run).phase == RunPhase::Cleaning
                &&& final(run).failure == old(run).failure
                &&& opt_captured(final(step).captured_outputs) == Some(outputs)
            },
        },
{
    let contents = match run.place {
        StepPlace::Guest => match read {
            Ok(text) => text,
            Err(e) => {
                let context = cat3(
                    "step '",
                    step.name.as_str(),
                    "': failed to read $BF_OUT to capture declared outputs",
                );
                run.failure = Some(e.within(context.as_str()));
                run.phase = RunPhase::Finished;
                return;
            },
        },
        _ => match read {
            Ok(text) => text,
            Err(_) => {
                let none = String::new();
                assert(none@ =~= seq![]);
                none
            },
        },
    };
    match capture_step_outputs(step.name.as_str(), &step.outputs, contents.as_str()) {
        Ok(outputs) => {
            step.captured_outputs = Some(outputs);
            run.phase = RunPhase::Cleaning;
        },
        Err(e) => {
            run.failure = Some(e);
            run.phase = RunPhase::Finished;
        },
    }
}

// ---------------------------------------------------------------------------
// What holds of every run
// ---------------------------------------------------------------------------

/// How many phases lie behind a phase.
pub open spec fn progress(phase: RunPhase) -> nat {
    match phase {
        RunPhase::Start => 0,
        RunPhase::Writing => 1,
        RunPhase::Uploading => 2,
        RunPhase::Preparing => 3,
        RunPhase::Executing => 4,
        RunPhase::ReadingEnv => 5,
        RunPhase::ReadingOut => 6,
        RunPhase::Cleaning => 7,
        RunPhase::CleaningLocal => 8,
        RunPhase::Finished => 9,
    }
}

/// The run of a step ends: whatever happens, it goes on to a later phase.
pub proof fn runs_end(place: StepPlace, step: RunStep, state: RunState, event: RunEvent)
    ensures
        state.phase != RunPhase::Finished ==> progress(run_next(place, step, state, event).phase)
            > progress(state.phase),
        state.phase == RunPhase::Finished ==> run_next(place, step, state, event) == state,
{
}

/// The variables that later steps see change in one phase only, and only by what the
/// script wrote; the outputs of a step change in one phase only.
pub proof fn runs_change_little(place: StepPlace, step: RunStep, state: RunState, event: RunEvent)
    ensures
        state.phase != RunPhase::ReadingEnv ==> run_next(place, step, state, event).env
            == state.env,
        state.phase != RunPhase::ReadingOut ==> run_next(place, step, state, event).outputs
            == state.outputs,
{
}

/// A script that has to succeed and does not leaves no trace: from a command that
/// failed, the run goes on to the removal of its files, and variables and outputs stay
/// as they are.
pub proof fn failed_commands_leave_no_trace(
    place: StepPlace,
    step: RunStep,
    state: RunState,
    error: PlanError,
    later: RunEvent,
)
    requires
        !judged(step),
        state.phase == RunPhase::Executing,
    ensures
        ({
            let failed = run_next(place, step, state, RunEvent::Ended(Err(error)));
            let cleaned = run_next(place, step, failed, later);
            &&& failed.phase == RunPhase::Cleaning
            &&& failed.failure is Some
            &&& cleaned.phase == RunPhase::CleaningLocal || cleaned.phase == RunPhase::Finished
            &&& cleaned.failure == failed.failure
            &&& cleaned.env == state.env
            &&& cleaned.outputs == state.outputs
        }),
{
}

// ---------------------------------------------------------------------------
// Whole runs
// ---------------------------------------------------------------------------

/// The state of a run after events, one after another.
pub open spec fn run_after(
    place: StepPlace,
    step: RunStep,
    start: RunState,
    events: Seq<RunEvent>,
) -> RunState
    decreases events.len(),
{
    if events.len() == 0 {
        start
    } else {
        run_next(place, step, run_after(place, step, start, events.drop_last()), events.last())
    }
}

/// Whether a run is in a phase when its event at position `k` happens.
pub open spec fn in_phase_at(
    place: StepPlace,
    step: RunStep,
    start: RunState,
    events: Seq<RunEvent>,
    k: int,
    phase: RunPhase,
) -> bool {
    0 <= k < events.len() && run_after(place, step, start, events.take(k)).phase == phase
}

/// Whether a run comes through a phase.
pub open spec fn comes_through(
    place: StepPlace,
    step: RunStep,
    start: RunState,
    events: Seq<RunEvent>,
    phase: RunPhase,
) -> bool {
    exists|k: int| in_phase_at(place, step, start, events, k, phase)
}

proof fn lemma_earlier_phase(
    place: StepPlace,
    step: RunStep,
    start: RunState,
    events: Seq<RunEvent>,
    k: int,
    phase: RunPhase,
)
    requires
        events.len() > 0,
        in_phase_at(place, step, start, events.drop_last(), k, phase),
    ensures
        in_phase_at(place, step, start, events, k, phase),
{
    assert(events.drop_last().take(k) =~= events.take(k));
}

proof fn lemma_last_phase(
    place: StepPlace,
    step: RunStep,
    start: RunState,
    events: Seq<RunEvent>,
)
    requires
        events.len() > 0,
    ensures
        in_phase_at(
            place,
            step,
            start,
            events,
            events.len() - 1,
            run_after(place, step, start, events.drop_last()).phase,
        ),
{
    assert(events.take(events.len() - 1) =~= events.drop_last());
}

proof fn lemma_comes_through(
    place: StepPlace,
    step: RunStep,
    start: RunState,
    events: Seq<RunEvent>,
    phase: RunPhase,
)
    requires
        events.len() > 0,
    ensures
        comes_through(place, step, start, events.drop_last(), phase) ==> comes_through(
            place,
            step,
            start,
            events,
            phase,
        ),
        run_after(place, step, start, events.drop_last()).phase == phase ==> comes_through(
            place,
            step,
            start,
            events,
            phase,
        ),
{
    lemma_last_phase(place, step, start, events);
    if comes_through(place, step, start, events.drop_last(), phase) {
        let k = choose|k: int| in_phase_at(place, step, start, events.drop_last(), k, phase);
        lemma_earlier_phase(place, step, start, events, k, phase);
    }
}

/// Whether the outputs of a run are what the event at position `k` read of them.
pub open spec fn stored_at(
    place: StepPlace,
    step: RunStep,
    start: RunState,
    events: Seq<RunEvent>,
    outputs: Option<Seq<CapturedView>>,
    k: int,
) -> bool {
    &&& in_phase_at(place, step, start, events, k, RunPhase::ReadingOut)
    &&& outputs is Some
    &&& outputs_after(place, step, events[k]->Read_0) == Ok::<Seq<CapturedView>, Seq<char>>(
        outputs->0,
    )
}

/// A step that declares outputs and succeeds has stored them, whether or not something is
/// expected of its outcome: what was read of its output file when it had run. Steps that prepare
/// a publication are left out, for theirs are not kept.
pub proof fn successful_runs_store_their_outputs(
    place: StepPlace,
    step: RunStep,
    start: RunState,
    events: Seq<RunEvent>,
)
    requires
        start.phase == RunPhase::Start,
        start.failure is None,
        place != StepPlace::Publish,
        step.outputs@.len() > 0,
    ensures
        ({
            let end = run_after(place, step, start, events);
            end.phase == RunPhase::Finished && end.failure is None ==> exists|k: int|
                #[trigger]
                stored_at(place, step, start, events, end.outputs, k)
        }),
{
    lemma_outputs_stored(place, step, start, events);
}

proof fn lemma_outputs_stored(
    place: StepPlace,
    step: RunStep,
    start: RunState,
    events: Seq<RunEvent>,
)
    requires
        start.phase == RunPhase::Start,
        start.failure is None,
        place != StepPlace::Publish,
        step.outputs@.len() > 0,
    ensures
        ({
            let end = run_after(place, step, start, events);
            end.failure is None && progress(end.phase) >= 7 ==> exists|k: int|
                #[trigger]
                stored_at(place, step, start, events, end.outputs, k)
        }),
    decreases events.len(),
{
    if events.len() > 0 {
        let front = events.drop_last();
        lemma_outputs_stored(place, step, start, front);
        lemma_last_phase(place, step, start, events);
        let before = run_after(place, step, start, front);
        let end = run_after(place, step, start, events);
        if end.failure is None && progress(end.phase) >= 7 {
            if before.phase == RunPhase::ReadingOut {
                assert(stored_at(place, step, start, events, end.outputs, events.len() - 1));
            } else {
                let k = choose|k: int| #[trigger]
                    stored_at(place, step, start, front, before.outputs, k);
                lemma_earlier_phase(place, step, start, events, k, RunPhase::ReadingOut);
                assert(front[k] == events[k]);
                assert(stored_at(place, step, start, events, end.outputs, k));
            }
        }
    }
}

/// Whether the script of a step ran and did what it should: with `expect:`, its exit code and
/// its streams are as expected; without, the command succeeded.
pub open spec fn ran_well(step: RunStep, event: RunEvent) -> bool {
    match step.expect {
        Some(expect) => match event {
            RunEvent::Executed(Ok((capture, exit))) => expect_error(
                step.name@,
                expect,
                capture,
                exit,
            ) is None,
            _ => false,
        },
        None => event matches RunEvent::Ended(ended) && ended is Ok,
    }
}

/// A step succeeds only if its script was run and did what it should, and then its variables
/// were read and its files removed. In the guest the script was written, copied and prepared
/// before.
pub proof fn successful_runs_did_their_work(
    place: StepPlace,
    step: RunStep,
    start: RunState,
    events: Seq<RunEvent>,
)
    requires
        start.phase == RunPhase::Start,
        start.failure is None,
        forall|k: int|
            0 <= k < events.len() ==> awaits(
                step,
                run_after(place, step, start, #[trigger] events.take(k)).phase,
                events[k],
            ),
    ensures
        ({
            let end = run_after(place, step, start, events);
            end.phase == RunPhase::Finished && end.failure is None ==> {
                &&& exists|k: int|
                    in_phase_at(place, step, start, events, k, RunPhase::Executing) && ran_well(
                        step,
                        #[trigger] events[k],
                    )
                &&& comes_through(place, step, start, events, RunPhase::ReadingEnv)
                &&& comes_through(place, step, start, events, RunPhase::Cleaning)
                &&& place == StepPlace::Guest ==> {
                    &&& comes_through(place, step, start, events, RunPhase::Writing)
                    &&& comes_through(place, step, start, events, RunPhase::Uploading)
                    &&& comes_through(place, step, start, events, RunPhase::Preparing)
                    &&& comes_through(place, step, start, events, RunPhase::CleaningLocal)
                }
            }
        }),
{
    let end = run_after(place, step, start, events);
    if end.phase == RunPhase::Finished && end.failure is None {
        lemma_script_ran(place, step, start, events);
        lemma_passed(place, step, start, events, RunPhase::ReadingEnv);
        lemma_passed(place, step, start, events, RunPhase::Cleaning);
        if place == StepPlace::Guest {
            lemma_passed(place, step, start, events, RunPhase::Writing);
            lemma_passed(place, step, start, events, RunPhase::Uploading);
            lemma_passed(place, step, start, events, RunPhase::Preparing);
            lemma_passed(place, step, start, events, RunPhase::CleaningLocal);
        }
    }
}

proof fn lemma_passed(
    place: StepPlace,
    step: RunStep,
    start: RunState,
    events: Seq<RunEvent>,
    phase: RunPhase,
)
    requires
        start.phase == RunPhase::Start,
        start.failure is None,
        phase != RunPhase::ReadingOut,
        phase != RunPhase::Start,
        place == StepPlace::Guest || phase == RunPhase::ReadingEnv || phase == RunPhase::Cleaning,
        run_after(place, step, start, events).failure is None,
        progress(run_after(place, step, start, events).phase) > progress(phase),
    ensures
        comes_through(place, step, start, events, phase),
    decreases events.len(),
{
    if events.len() > 0 {
        let before = run_after(place, step, start, events.drop_last());
        lemma_comes_through(place, step, start, events, phase);
        if before.phase != phase {
            assert(progress(before.phase) > progress(phase));
            assert(before.failure is None || before.phase == RunPhase::Executing);
            if before.failure is None {
                lemma_passed(place, step, start, events.drop_last(), phase);
            } else {
                lemma_no_failure_before(place, step, start, events.drop_last());
            }
        }
    }
}

proof fn lemma_no_failure_before(
    place: StepPlace,
    step: RunStep,
    start: RunState,
    events: Seq<RunEvent>,
)
    requires
        start.phase == RunPhase::Start,
        start.failure is None,
        progress(run_after(place, step, start, events).phase) <= 4,
    ensures
        run_after(place, step, start, events).failure is None,
    decreases events.len(),
{
    if events.len() > 0 {
        let before = run_after(place, step, start, events.drop_last());
        if progress(before.phase) <= 4 {
            lemma_no_failure_before(place, step, start, events.drop_last());
        }
    }
}

proof fn lemma_script_ran(
    place: StepPlace,
    step: RunStep,
    start: RunState,
    events: Seq<RunEvent>,
)
    requires
        start.phase == RunPhase::Start,
        start.failure is None,
        forall|k: int|
            0 <= k < events.len() ==> awaits(
                step,
                run_after(place, step, start, #[trigger] events.take(k)).phase,
                events[k],
            ),
        run_after(place, step, start, events).failure is None,
        progress(run_after(place, step, start, events).phase) > 4,
    ensures
        exists|k: int|
            in_phase_at(place, step, start, events, k, RunPhase::Executing) && ran_well(
                step,
                #[trigger] events[k],
            ),
    decreases events.len(),
{
    if events.len() > 0 {
        let front = events.drop_last();
        assert forall|k: int| 0 <= k < front.len() implies awaits(
            step,
            run_after(place, step, start, #[trigger] front.take(k)).phase,
            front[k],
        ) by {
            assert(front.take(k) =~= events.take(k));
        }
        lemma_last_phase(place, step, start, events);
        let before = run_after(place, step, start, front);
        let last = events.len() - 1;
        assert(events.take(last) =~= front);
        assert(awaits(step, before.phase, events[last]));
        if before.phase == RunPhase::Executing {
            assert(ran_well(step, events[last]));
        } else {
            lemma_script_ran(place, step, start, front);
            let k = choose|k: int|
                in_phase_at(place, step, start, front, k, RunPhase::Executing) && ran_well(
                    step,
                    #[trigger] front[k],
                );
            lemma_earlier_phase(place, step, start, events, k, RunPhase::Executing);
            assert(front[k] == events[k]);
        }
    }
}

/// A step whose script did not do what it should fails, and so does one whose outputs could not
/// be read; nothing that happens later makes it succeed.
pub proof fn failures_stay(place: StepPlace, step: RunStep, state: RunState, event: RunEvent)
    requires
        awaits(step, state.phase, event),
        state.phase != RunPhase::Start,
    ensures
        state.phase == RunPhase::Executing ==> (run_next(place, step, state, event).failure is None
            <==> ran_well(step, event)),
        state.phase == RunPhase::ReadingOut && state.failure is None ==> (run_next(
            place,
            step,
            state,
            event,
        ).failure is None <==> outputs_after(place, step, event->Read_0) is Ok),
        state.phase == RunPhase::Writing || state.phase == RunPhase::Uploading ==> (
        event->Ended_0 is Err ==> run_next(place, step, state, event).failure is Some),
        state.failure is Some && progress(state.phase) > 4 ==> run_next(
            place,
            step,
            state,
            event,
        ).failure is Some,
        state.failure is None && state.phase == RunPhase::ReadingEnv ==> run_next(
            place,
            step,
            state,
            event,
        ).failure is None,
        state.failure is None && (state.phase == RunPhase::Cleaning || state.phase
            == RunPhase::CleaningLocal) ==> run_next(place, step, state, event).failure is None,
{
}

/// The variables that a run leaves behind: those that were there, with the ones that its script
/// wrote laid over them, each with the last value that was written. They are read once the script
/// has run. A file that cannot be read, or is not written as it should be, changes nothing.
pub proof fn runs_pass_variables_on(
    place: StepPlace,
    step: RunStep,
    state: RunState,
    event: RunEvent,
    name: Seq<char>,
)
    requires
        state.phase == RunPhase::ReadingEnv,
    ensures
        ({
            let after = run_next(place, step, state, event).env;
            match event->Read_0 {
                Err(_) => after == state.env,
                Ok(text) => match env_entries(lines(text@)) {
                    Err(_) => after == state.env,
                    Ok(new) => value_of(after, name) == match last_value(new, name) {
                        Some(value) => Some(value),
                        None => value_of(state.env, name),
                    },
                },
            }
        }),
{
    if let Ok(text) = event->Read_0 {
        if let Ok(new) = env_entries(lines(text@)) {
            merge_last_write_wins(state.env, new, name);
        }
    }
}

/// The outputs of a step in the guest are lost if their file cannot be read, and the step fails;
/// on the host such a file counts as empty. What is read is held against the declarations.
pub proof fn unread_outputs(place: StepPlace, step: RunStep, read: Result<String, PlanError>)
    ensures
        place == StepPlace::Guest && read is Err ==> outputs_after(place, step, read) is Err,
        read matches Ok(text) ==> outputs_after(place, step, read) == step_outputs(
            step.name@,
            step.outputs@,
            text@,
        ),
        place != StepPlace::Guest && read is Err ==> outputs_after(place, step, read)
            == step_outputs(step.name@, step.outputs@, Seq::<char>::empty()),
{
    assert(Seq::<char>::empty() =~= seq![]);
}

/// A script on the host sees the variables of earlier steps, and the files that it may write to
/// under `BF_ENV` and `BF_OUT` where no earlier step took these names.
pub proof fn host_scripts_see_their_variables(
    run: StepRun,
    step: RunStep,
    state: RunState,
    action: RunAction,
    name: Seq<char>,
)
    requires
        run.place != StepPlace::Guest,
        state.phase == RunPhase::Executing,
        acts(run, step, state, action),
    ensures
        action matches RunAction::ExecuteOnHost { env, .. } && value_of(pairs(env@), name)
            == match last_value(state.env, name) {
            Some(value) => Some(value),
            None => if name == "BF_ENV"@ {
                Some(run.env_path@)
            } else if name == "BF_OUT"@ {
                Some(run.out_path@)
            } else {
                None
            },
        },
{
    reveal_strlit("BF_ENV");
    reveal_strlit("BF_OUT");
    assert("BF_ENV"@[3] != "BF_OUT"@[3]);
    let own = seq![("BF_ENV"@, run.env_path@), ("BF_OUT"@, run.out_path@)];
    merge_last_write_wins(own, state.env, name);
    lemma_entry_of(own, name);
    match crate::pairs::entry_of(own, name) {
        Some(k) => {
            if k == 1 {
                assert(own[0].0 != name);
            }
        },
        None => {
            assert(own[0].0 != name && own[1].0 != name);
        },
    }
}

/// A script in the guest gets what it is owed: a shell that reads the command of a step that
/// names its interpreter finds every variable of earlier steps with its value, the two files
/// that the script may write to, and the script itself. It runs as root unless the step says
/// otherwise.
pub proof fn guest_scripts_see_their_variables(
    run: StepRun,
    step: RunStep,
    state: RunState,
    action: RunAction,
)
    requires
        run.place == StepPlace::Guest,
        state.phase == RunPhase::Executing,
        acts(run, step, state, action),
        step.shell is Some,
        shell_template(opt_text(step.shell)) is Ok,
        ({
            let template = shell_template(opt_text(step.shell))->Ok_0;
            &&& template.contains("{0}"@)
            &&& forall|k: int|
                0 <= k < template.len() ==> #[trigger] template[k] == "{0}"@ || is_literal_word(
                    template[k],
                )
        }),
        forall|k: int| 0 <= k < state.env.len() ==> is_literal_word((#[trigger] state.env[k]).0),
    ensures
        action matches RunAction::Execute { command, capture, .. } && {
            let words = command_words(command@, None, false)->0;
            &&& command_words(command@, None, false) is Some
            &&& forall|k: int|
                0 <= k < state.env.len() ==> words.contains(
                    (#[trigger] state.env[k]).0 + "="@ + state.env[k].1,
                )
            &&& words.contains("BF_ENV="@ + run.env_path@)
            &&& words.contains("BF_OUT="@ + run.out_path@)
            &&& words.contains(run.remote_script@)
            &&& words[0] == "sudo"@ <==> step.sudo != Some(false)
            &&& capture == step.expect is Some
        },
{
    let template = shell_template(opt_text(step.shell))->Ok_0;
    let script = run.remote_script@;
    let sudo = step.as_root();
    guest_commands_carry_their_values(
        template,
        script,
        sudo,
        state.env,
        run.env_path@,
        run.out_path@,
    );
    reveal_strlit("sudo");
    reveal_strlit("env");
    let lead = if sudo {
        seq!["sudo"@, "-E"@, "env"@]
    } else {
        seq!["env"@]
    };
    let given = env_meaning(state.env, run.env_path@, run.out_path@);
    let last = with_script(template, script);
    let words = lead + given + last;
    assert(words == command_meaning(
        template,
        script,
        sudo,
        state.env,
        run.env_path@,
        run.out_path@,
    ));
    let n = state.env.len() as int;
    assert forall|k: int| 0 <= k < n implies words.contains(
        (#[trigger] state.env[k]).0 + "="@ + state.env[k].1,
    ) by {
        assert(given[k] == state.env[k].0 + "="@ + state.env[k].1);
        assert(words[lead.len() + k] == given[k]);
    }
    assert(given[n] == "BF_ENV="@ + run.env_path@);
    assert(words[lead.len() + n] == given[n]);
    assert(given[n + 1] == "BF_OUT="@ + run.out_path@);
    assert(words[lead.len() + n + 1] == given[n + 1]);
    let k = choose|k: int| 0 <= k < template.len() && template[k] == "{0}"@;
    assert(last[k] == script);
    assert(words[lead.len() + given.len() + k] == script);
    assert("sudo"@.len() != "env"@.len());
    assert(words[0] == lead[0]);
}

/// What a run in the guest writes is what it uploads, what it has run is what it uploaded, what
/// it reads back are the files that it emptied before, and all of these are removed behind it.
pub proof fn runs_use_their_own_files(
    run: StepRun,
    step: RunStep,
    state: RunState,
    action: RunAction,
    next: RunState,
    next_action: RunAction,
)
    requires
        run.place == StepPlace::Guest,
        acts(run, step, state, action),
        acts(run, step, next, next_action),
    ensures
        state.phase == RunPhase::Writing && next.phase == RunPhase::Uploading ==> {
            &&& action matches RunAction::WriteScript { path, body }
            &&& next_action matches RunAction::Upload { from, .. }
            &&& path@ == from@
            &&& body@ == run.body@
        },
        state.phase == RunPhase::Writing && next.phase == RunPhase::CleaningLocal ==> {
            &&& action matches RunAction::WriteScript { path, .. }
            &&& next_action matches RunAction::RemoveFiles { paths }
            &&& texts(paths@) == seq![path@]
        },
        state.phase == RunPhase::Uploading && next.phase == RunPhase::Cleaning ==> {
            &&& action matches RunAction::Upload { to, .. }
            &&& next_action matches RunAction::RunInGuest { command, .. }
            &&& ends_with(command@, " "@ + quoted(to@))
        },
        state.phase == RunPhase::ReadingEnv && next.phase == RunPhase::ReadingOut ==> {
            &&& action matches RunAction::ReadFromGuest { command, .. }
            &&& next_action matches RunAction::ReadFromGuest { command: other, .. }
            &&& ends_with(command@, quoted(run.env_path@))
            &&& ends_with(other@, quoted(run.out_path@))
        },
{
    if state.phase == RunPhase::Uploading && next.phase == RunPhase::Cleaning {
        let last = " "@ + quoted(run.remote_script@);
        let front = "rm -f "@ + quoted(run.out_path@) + " "@ + quoted(run.env_path@);
        let all = front + " "@ + quoted(run.remote_script@);
        assert(all =~= front + last);
        assert(all.subrange(all.len() - last.len(), all.len() as int) =~= last);
    }
    if state.phase == RunPhase::ReadingEnv && next.phase == RunPhase::ReadingOut {
        let a = "cat "@ + quoted(run.env_path@);
        let b = "cat "@ + quoted(run.out_path@);
        let x = quoted(run.env_path@);
        let y = quoted(run.out_path@);
        assert(a.subrange(a.len() - x.len(), a.len() as int) =~= x);
        assert(b.subrange(b.len() - y.len(), b.len() as int) =~= y);
    }
}

} // verus!
