//! Runs of steps, of plans and of the phases around them.

use botforge_plan::asserts::{
    known_verbs, run_assert_phase, verbs_of, AssertAction, AssertPhase, AssertStage, AssertVerb,
};
use botforge_plan::budget::{
    capped_budget, deadline, ensure_overall_budget, nanos, remaining_budget, Retries,
    NANOS_PER_SEC,
};
use botforge_plan::document::{AssertBlock, AssertGroup, AssertPackage};
use botforge_plan::error::PlanError;
use botforge_plan::expect::StepCapture;
use botforge_plan::flow::{
    run_current_step, run_steps_inner, FlowAction, FlowEvent, FlowMode, FlowNote, StepFlow,
};
use botforge_plan::guest::guest_step_files;
use botforge_plan::host::{
    run_host_step, run_host_step_capturing, HostAction, HostEvent, HostLook, HostPhase, HostStep,
    StepExecutionBudget,
};
use botforge_plan::load::TestConfig;
use botforge_plan::local::{run_local_step, run_local_steps, LocalAction, LocalMode, LocalSteps};
use botforge_plan::logging::StepOutputStream;
use botforge_plan::outputs::EvaluatedValue;
use botforge_plan::phases::{
    run_step_flow, run_test_flow, step_log_dir, Phase, PhaseAction, PhaseEvent, PhaseNote,
    PhaseRun, TestIsoBootstrap,
};
use botforge_plan::references::Piece;
use botforge_plan::remote::{
    run_ssh_step_capturing, run_ssh_step_with_step_log, LogLine, SshAction, SshEvent,
    SshExecOutcome, SshStep,
};
use botforge_plan::run::{run_run_step, RunAction, RunEvent, RunPhase, StepPlace, StepRun};
use botforge_plan::shutdown::{
    cleanup_test, preserve_failed_build_disk, shutdown_build_vm, Shutdown, ShutdownAction,
    ShutdownEvent, ShutdownNote, ShutdownPhase, ShutdownVerdict, VmState,
};
use botforge_plan::step::{
    resolve_shell, ArchiveStep, ArchiveStepSpec, ExpectBlock, FragmentOutputDecl, InvokeStep, OutputDecl,
    OutputType, OutputValue, RunStep, StepCondition, StepTarget, TestStep,
};
use botforge_plan::streams::{
    stream_child_output, stream_child_output_capturing, ChildStream, StreamAction, StreamEvent,
};
use botforge_plan::value::Node;
use botforge_plan::waits::{
    require_stable_ssh_with_deadline, StableAction, StableEvent, StableSsh,
};

const ONCE: Retries = Retries { tries: 1, delay_secs: 0 };
const OFTEN: Retries = Retries { tries: 10, delay_secs: 2 };

fn step(name: &str, run: &str) -> RunStep {
    RunStep {
        target: StepTarget::Guest,
        name: name.to_string(),
        run: run.to_string(),
        timeout: None,
        shell: None,
        sudo: None,
        id: None,
        expect: None,
        condition: StepCondition::Always,
        outputs: Vec::new(),
        captured_outputs: None,
    }
}

fn with_output(mut s: RunStep, id: &str, output: &str, output_type: OutputType) -> RunStep {
    s.id = Some(id.to_string());
    s.outputs.push((output.to_string(), OutputDecl { output_type, required: true }));
    s
}

fn boom() -> PlanError {
    PlanError::text("boom")
}

fn guest_run() -> StepRun {
    StepRun::in_guest(guest_step_files("/t", "0.1", "sfx"), "echo hi".to_string())
}

// ---------------------------------------------------------------------------
// One step
// ---------------------------------------------------------------------------

#[test]
fn a_step_in_the_guest_runs_through_all_its_phases() {
    let mut run = guest_run();
    let mut s = with_output(step("greet", "echo hi"), "g", "word", OutputType::String);
    let mut env = vec![("A".to_string(), "1".to_string())];
    let env_path = run.env_path.clone();
    let out_path = run.out_path.clone();
    let remote = run.remote_script.clone();
    let local = run.local_script.clone();
    assert!(local.starts_with("/t/"), "{local}");
    assert!(remote.starts_with("/tmp/"), "{remote}");

    let mut next = |run: &mut StepRun, event: RunEvent| run_run_step(run, &mut s, &mut env, event);
    assert_eq!(
        next(&mut run, RunEvent::Ended(Ok(()))),
        RunAction::WriteScript { path: local.clone(), body: "echo hi".to_string() }
    );
    assert_eq!(
        next(&mut run, RunEvent::Ended(Ok(()))),
        RunAction::Upload { from: local.clone(), to: remote.clone(), retries: OFTEN }
    );
    let RunAction::RunInGuest { command, retries, secs } =
        next(&mut run, RunEvent::Ended(Ok(())))
    else {
        panic!("files are made first");
    };
    assert_eq!((retries, secs), (ONCE, 10));
    assert!(command.contains(&env_path) && command.contains(&out_path), "{command}");
    let RunAction::Execute { command, capture, retries, connect_secs } =
        next(&mut run, RunEvent::Ended(Err(boom())))
    else {
        panic!("the script runs");
    };
    assert_eq!((retries, connect_secs), (OFTEN, 300));
    assert!(!capture);
    assert!(command.contains("A='1'"), "{command}");
    assert!(command.contains(&remote), "{command}");
    assert_eq!(
        next(&mut run, RunEvent::Ended(Ok(()))),
        RunAction::ReadFromGuest {
            command: format!("cat '{env_path}'"),
            retries: ONCE,
            secs: 10,
        }
    );
    assert_eq!(
        next(&mut run, RunEvent::Read(Ok("A=2\nB=3\n".to_string()))),
        RunAction::ReadFromGuest {
            command: format!("cat '{out_path}'"),
            retries: ONCE,
            secs: 10,
        }
    );
    assert_eq!(
        next(&mut run, RunEvent::Read(Ok("word=hello\n".to_string()))),
        RunAction::RunInGuest {
            command: format!("rm -f '{out_path}' '{env_path}' '{remote}'"),
            retries: ONCE,
            secs: 10,
        }
    );
    assert_eq!(
        next(&mut run, RunEvent::Ended(Ok(()))),
        RunAction::RemoveFiles { paths: vec![local.clone()] }
    );
    assert_eq!(next(&mut run, RunEvent::Ended(Ok(()))), RunAction::Done(Ok(())));
    assert_eq!(run.phase, RunPhase::Finished);
    let captured = s.captured_outputs.unwrap();
    assert_eq!(captured.len(), 1);
    assert_eq!(captured[0].value, OutputValue::String("hello".to_string()));
    assert_eq!(
        env,
        vec![("A".to_string(), "2".to_string()), ("B".to_string(), "3".to_string())]
    );
}

#[test]
fn a_command_that_fails_leaves_no_trace() {
    let mut run = guest_run();
    let mut s = with_output(step("greet", "false"), "g", "word", OutputType::String);
    let mut env = Vec::new();
    for _ in 0..4 {
        run_run_step(&mut run, &mut s, &mut env, RunEvent::Ended(Ok(())));
    }
    assert_eq!(run.phase, RunPhase::Executing);
    let action = run_run_step(&mut run, &mut s, &mut env, RunEvent::Ended(Err(boom())));
    assert!(matches!(action, RunAction::RunInGuest { .. }));
    run_run_step(&mut run, &mut s, &mut env, RunEvent::Ended(Ok(())));
    let RunAction::Done(Err(e)) =
        run_run_step(&mut run, &mut s, &mut env, RunEvent::Ended(Ok(())))
    else {
        panic!("the step fails");
    };
    assert_eq!(e.to_string(), "test step 'greet' command failed: boom");
    assert!(env.is_empty());
    assert_eq!(s.captured_outputs, None);
}

#[test]
fn scripts_that_cannot_be_written_or_copied_fail_the_step() {
    let mut run = guest_run();
    let mut s = step("greet", "true");
    let mut env = Vec::new();
    run_run_step(&mut run, &mut s, &mut env, RunEvent::Ended(Ok(())));
    let RunAction::Done(Err(e)) =
        run_run_step(&mut run, &mut s, &mut env, RunEvent::Ended(Err(boom())))
    else {
        panic!("the step fails");
    };
    assert_eq!(e.to_string(), "test step 'greet': failed to write script file: boom");

    let mut run = guest_run();
    for _ in 0..2 {
        run_run_step(&mut run, &mut s, &mut env, RunEvent::Ended(Ok(())));
    }
    let action = run_run_step(&mut run, &mut s, &mut env, RunEvent::Ended(Err(boom())));
    assert!(matches!(action, RunAction::RunInGuest { .. }), "files are removed: {action:?}");
    assert_eq!(
        run.failure.unwrap().to_string(),
        "test step 'greet' script upload failed: boom"
    );
}

#[test]
fn a_judged_step_keeps_its_variables_even_if_it_fails() {
    let mut run = StepRun::on_host(false, "/t", "s", "exit 3".to_string());
    assert_eq!(run.place, StepPlace::Host);
    assert_eq!(run.env_path, "/t/botforge-host-env-s");
    assert_eq!(run.out_path, "/t/botforge-host-out-s");
    let mut s = with_output(step("code", "exit 3"), "c", "n", OutputType::Number);
    s.expect = Some(ExpectBlock { exit: Some(4), stdout: None, stderr: None });
    let mut env = vec![("A".to_string(), "1".to_string())];
    let RunAction::ExecuteOnHost { template, fallback, env: vars, capture } =
        run_run_step(&mut run, &mut s, &mut env, RunEvent::Ended(Ok(())))
    else {
        panic!("the script runs");
    };
    assert!(capture);
    assert!(template.iter().any(|t| t.contains("{0}")), "{template:?}");
    assert_eq!(fallback, resolve_shell(Some("sh")).ok());
    assert_eq!(
        vars,
        vec![
            ("BF_ENV".to_string(), "/t/botforge-host-env-s".to_string()),
            ("BF_OUT".to_string(), "/t/botforge-host-out-s".to_string()),
            ("A".to_string(), "1".to_string()),
        ]
    );
    let capture = StepCapture { stdout: String::new(), stderr: String::new() };
    assert_eq!(
        run_run_step(&mut run, &mut s, &mut env, RunEvent::Executed(Ok((capture, 3)))),
        RunAction::ReadFile { path: "/t/botforge-host-env-s".to_string() }
    );
    assert_eq!(
        run_run_step(&mut run, &mut s, &mut env, RunEvent::Read(Ok("B=2".to_string()))),
        RunAction::RemoveFiles {
            paths: vec![
                "/t/botforge-host-env-s".to_string(),
                "/t/botforge-host-out-s".to_string()
            ]
        }
    );
    let RunAction::Done(Err(e)) =
        run_run_step(&mut run, &mut s, &mut env, RunEvent::Ended(Ok(())))
    else {
        panic!("the step fails");
    };
    assert!(e.to_string().contains("code"), "{e:?}");
    assert_eq!(env.len(), 2);
    assert_eq!(s.captured_outputs, None);
}

#[test]
fn a_publish_step_keeps_no_outputs() {
    let mut run = StepRun::on_host(true, "/t", "s", "x".to_string());
    let mut s = with_output(step("p", "x"), "p", "n", OutputType::Number);
    let mut env = Vec::new();
    run_run_step(&mut run, &mut s, &mut env, RunEvent::Ended(Ok(())));
    assert_eq!(
        run_run_step(&mut run, &mut s, &mut env, RunEvent::Ended(Ok(()))),
        RunAction::ReadFile { path: "/t/botforge-publish-env-s".to_string() }
    );
    let action = run_run_step(&mut run, &mut s, &mut env, RunEvent::Read(Err(boom())));
    assert!(matches!(action, RunAction::RemoveFiles { .. }));
    let mut failing = StepRun::on_host(true, "/t", "s", "x".to_string());
    run_run_step(&mut failing, &mut s, &mut env, RunEvent::Ended(Ok(())));
    run_run_step(&mut failing, &mut s, &mut env, RunEvent::Ended(Err(boom())));
    assert_eq!(failing.failure.unwrap().to_string(), "publish step 'p' command failed: boom");
}

#[test]
fn outputs_that_cannot_be_stored_fail_the_step() {
    let mut run = guest_run();
    let mut s = with_output(step("greet", "x"), "g", "n", OutputType::Number);
    let mut env = Vec::new();
    for _ in 0..5 {
        run_run_step(&mut run, &mut s, &mut env, RunEvent::Ended(Ok(())));
    }
    run_run_step(&mut run, &mut s, &mut env, RunEvent::Read(Ok(String::new())));
    let RunAction::Done(Err(e)) =
        run_run_step(&mut run, &mut s, &mut env, RunEvent::Read(Err(boom())))
    else {
        panic!("the step fails");
    };
    assert_eq!(
        e.to_string(),
        "step 'greet': failed to read $BF_OUT to capture declared outputs: boom"
    );
}

// ---------------------------------------------------------------------------
// Many steps
// ---------------------------------------------------------------------------

fn clock(now: u128) -> FlowEvent {
    FlowEvent::Clock { poll: Ok(()), now }
}

fn archive() -> TestStep {
    TestStep::Archive(ArchiveStep {
        archive: ArchiveStepSpec {
            src: "@://a.tar".to_string(),
            into: None,
            name: Some("pack".to_string()),
            dest: None,
        },
        target: None,
        run: None,
        timeout: None,
        shell: None,
    })
}

fn go(flow: &mut StepFlow) -> FlowAction {
    let out = run_steps_inner(flow, FlowEvent::Proceed);
    if out.action != FlowAction::ReadClock {
        return out.action;
    }
    run_steps_inner(flow, clock(0)).action
}

#[test]
fn steps_run_one_after_another_and_see_earlier_outputs() {
    let first = with_output(step("first", "make"), "one", "word", OutputType::String);
    let second = step("second", "use ${{ steps.one.outputs.word }}");
    let mut flow =
        StepFlow::new(vec![TestStep::Run(first), TestStep::Run(second)], vec![], false, 10, 1);
    assert_eq!(
        go(&mut flow),
        FlowAction::Run { display: "0".to_string(), body: "make".to_string() }
    );
    let mut run = StepRun::on_host(false, "/t", "s", "make".to_string());
    run_current_step(&mut flow, &mut run, RunEvent::Ended(Ok(())));
    run_current_step(&mut flow, &mut run, RunEvent::Ended(Ok(())));
    run_current_step(&mut flow, &mut run, RunEvent::Read(Ok("V=1".to_string())));
    run_current_step(&mut flow, &mut run, RunEvent::Read(Ok("word=yes".to_string())));
    assert_eq!(
        run_current_step(&mut flow, &mut run, RunEvent::Ended(Ok(()))),
        RunAction::Done(Ok(()))
    );
    assert_eq!(flow.frames[0].env, vec![("V".to_string(), "1".to_string())]);
    let ended = run_steps_inner(&mut flow, FlowEvent::Ran(Ok(())));
    assert_eq!(
        ended.notes,
        vec![FlowNote::Status {
            display: "0".to_string(),
            name: "first".to_string(),
            id: Some("one".to_string()),
            ok: true
        }]
    );
    assert_eq!(
        go(&mut flow),
        FlowAction::Run { display: "1".to_string(), body: "use yes".to_string() }
    );
    run_steps_inner(&mut flow, FlowEvent::Ran(Ok(())));
    assert_eq!(
        run_steps_inner(&mut flow, FlowEvent::Proceed).action,
        FlowAction::Done(Ok(()))
    );
    assert_eq!(flow.mode, FlowMode::Finished);
}

#[test]
fn no_step_begins_when_time_is_over() {
    let mut flow = StepFlow::new(vec![TestStep::Run(step("s", "x"))], vec![], false, 10, 7);
    assert_eq!(run_steps_inner(&mut flow, FlowEvent::Proceed).action, FlowAction::ReadClock);
    let out = run_steps_inner(&mut flow, clock(10));
    assert!(out.notes.is_empty());
    let FlowAction::Done(Err(e)) = run_steps_inner(&mut flow, FlowEvent::Proceed).action else {
        panic!("the run fails");
    };
    assert!(e.to_string().contains('7'), "{e:?}");
}

#[test]
fn conditions_decide_whether_a_step_runs() {
    let mut never = step("never", "x");
    never.condition = StepCondition::Resolved(false);
    let mut asked = step("asked", "x");
    asked.condition = StepCondition::Deferred("steps.a.outputs.b".to_string());
    let steps = vec![TestStep::Run(never), TestStep::Run(asked)];
    let mut flow = StepFlow::new(steps, vec![], false, 10, 1);
    run_steps_inner(&mut flow, FlowEvent::Proceed);
    let out = run_steps_inner(&mut flow, clock(0));
    assert!(matches!(&out.notes[..], [FlowNote::Skipped { display, .. }] if display == "0"));
    assert_eq!(
        go(&mut flow),
        FlowAction::Evaluate { expression: "steps.a.outputs.b".to_string() }
    );
    let piece = Piece::StepOutput { step_id: "a".to_string(), output: "b".to_string() };
    assert!(flow.resolve_condition_reference(&piece).is_err());
    let literal = Piece::Literal("x".to_string());
    assert_eq!(
        flow.resolve_condition_reference(&literal).unwrap(),
        EvaluatedValue::String("x".to_string())
    );
    let out = run_steps_inner(&mut flow, FlowEvent::Condition(Err(boom())));
    assert!(matches!(&out.notes[..], [FlowNote::Skipped { .. }]));
    assert_eq!(
        run_steps_inner(&mut flow, FlowEvent::Proceed).action,
        FlowAction::Done(Ok(()))
    );
}

fn fragment(steps: Vec<TestStep>) -> InvokeStep {
    InvokeStep {
        uses: "frag.yaml".to_string(),
        id: Some("frag".to_string()),
        steps,
        output_decls: vec![FragmentOutputDecl {
            name: "word".to_string(),
            output_type: OutputType::String,
            value: "${{ steps.inner.outputs.word }}".to_string(),
            required: true,
            default: None,
        }],
        deferred_with: vec![(
            "given".to_string(),
            Node::String("${{ steps.one.outputs.word }}".to_string()),
        )],
        captured_outputs: None,
    }
}

fn run_with_output(flow: &mut StepFlow, env: &str, out: &str) {
    let mut run = StepRun::on_host(false, "/t", "s", "x".to_string());
    run_current_step(flow, &mut run, RunEvent::Ended(Ok(())));
    run_current_step(flow, &mut run, RunEvent::Ended(Ok(())));
    run_current_step(flow, &mut run, RunEvent::Read(Ok(env.to_string())));
    run_current_step(flow, &mut run, RunEvent::Read(Ok(out.to_string())));
    run_current_step(flow, &mut run, RunEvent::Ended(Ok(())));
    run_steps_inner(flow, FlowEvent::Ran(Ok(())));
}

#[test]
fn fragments_keep_their_variables_and_give_their_outputs() {
    let one = with_output(step("one", "x"), "one", "word", OutputType::String);
    let inner = with_output(
        step("inner", "x ${{ steps.one.outputs.word }}"),
        "inner",
        "word",
        OutputType::String,
    );
    let steps = vec![
        TestStep::Run(one),
        TestStep::Invoke(fragment(vec![TestStep::Run(inner)])),
        TestStep::Run(step("last", "y ${{ steps.frag.outputs.word }}")),
    ];
    let mut flow = StepFlow::new(steps, vec![], false, 10, 1);
    go(&mut flow);
    run_with_output(&mut flow, "A=1", "word=up");
    assert_eq!(go(&mut flow), FlowAction::Proceed);
    assert_eq!(flow.frames.len(), 2);
    assert_eq!(
        go(&mut flow),
        FlowAction::Run { display: "1.0".to_string(), body: "x up".to_string() }
    );
    run_with_output(&mut flow, "A=2", "word=down");
    let out = run_steps_inner(&mut flow, FlowEvent::Proceed);
    assert!(matches!(&out.notes[..], [FlowNote::Status { ok: true, .. }]), "{out:?}");
    assert_eq!(flow.frames.len(), 1);
    assert_eq!(flow.frames[0].env, vec![("A".to_string(), "1".to_string())]);
    assert_eq!(
        go(&mut flow),
        FlowAction::Run { display: "2".to_string(), body: "y down".to_string() }
    );
}

#[test]
fn the_first_failure_ends_the_run_from_the_inside_out() {
    let mut invoke = fragment(vec![TestStep::Run(step("inner", "x")), TestStep::Run(step("z", "z"))]);
    invoke.deferred_with.clear();
    let mut flow = StepFlow::new(vec![TestStep::Invoke(invoke)], vec![], false, 10, 1);
    go(&mut flow);
    go(&mut flow);
    let out = run_steps_inner(&mut flow, FlowEvent::Ran(Err(boom())));
    assert!(matches!(&out.notes[..], [FlowNote::Status { ok: false, .. }]));
    let out = run_steps_inner(&mut flow, FlowEvent::Proceed);
    assert!(matches!(&out.notes[..], [FlowNote::Status { ok: false, .. }]));
    assert_eq!(
        run_steps_inner(&mut flow, FlowEvent::Proceed).action,
        FlowAction::Done(Err(boom()))
    );
}

#[test]
fn archives_are_unpacked_where_that_is_enabled() {
    let mut flow = StepFlow::new(vec![archive()], vec![], true, 10, 1);
    assert_eq!(go(&mut flow), FlowAction::Archive { display: "0".to_string() });
    run_steps_inner(&mut flow, FlowEvent::Ran(Ok(())));
    let mut flow = StepFlow::new(vec![archive()], vec![], false, 10, 1);
    go(&mut flow);
    let FlowAction::Done(Err(e)) = run_steps_inner(&mut flow, FlowEvent::Proceed).action else {
        panic!("the run fails");
    };
    assert_eq!(
        e.to_string(),
        "step 0 ('pack') is an `archive` step, but archive execution is not enabled for this command"
    );
}

// ---------------------------------------------------------------------------
// Steps on the host
// ---------------------------------------------------------------------------

#[test]
fn local_steps_run_in_order_and_stop_at_a_failure() {
    let mut skipped = step("skipped", "x");
    skipped.condition = StepCondition::Resolved(false);
    assert!(!skipped.condition_enabled());
    assert!(step("s", "x").condition_enabled());
    let steps = vec![
        TestStep::Run(skipped),
        TestStep::Run(step("a", "one")),
        TestStep::Run(step("b", "two ${{ steps.none.outputs.x }}")),
    ];
    let mut state = LocalSteps::new("/ctx", steps);
    assert_eq!(
        run_local_steps(&mut state, Ok(())).action,
        LocalAction::MakeDir { path: "/ctx/build/logs".to_string() }
    );
    assert_eq!(run_local_steps(&mut state, Ok(())).action, LocalAction::Proceed);
    let out = run_local_steps(&mut state, Ok(()));
    assert!(matches!(&out.notes[..], [FlowNote::Skipped { .. }]));
    assert_eq!(
        run_local_steps(&mut state, Ok(())).action,
        LocalAction::Run { display: "1".to_string(), body: "one".to_string() }
    );
    let mut run = StepRun::on_host(true, "/t", "s", "one".to_string());
    run_local_step(&mut state, &mut run, RunEvent::Ended(Ok(())));
    run_local_step(&mut state, &mut run, RunEvent::Ended(Ok(())));
    run_local_step(&mut state, &mut run, RunEvent::Read(Ok("V=1".to_string())));
    assert_eq!(state.env, vec![("V".to_string(), "1".to_string())]);
    let out = run_local_steps(&mut state, Ok(()));
    assert!(matches!(&out.notes[..], [FlowNote::Status { ok: true, .. }]));
    let out = run_local_steps(&mut state, Ok(()));
    assert!(matches!(out.action, LocalAction::Done(Err(_))), "{out:?}");
    assert_eq!(out.notes.len(), 2);
    assert_eq!(state.mode, LocalMode::Finished);
}

#[test]
fn local_steps_refuse_what_is_no_script() {
    let mut state = LocalSteps::new("/ctx", vec![archive()]);
    run_local_steps(&mut state, Ok(()));
    run_local_steps(&mut state, Ok(()));
    let LocalAction::Done(Err(e)) = run_local_steps(&mut state, Ok(())).action else {
        panic!("the run fails");
    };
    assert_eq!(
        e.to_string(),
        "publish step 0 ('pack'): only run steps are supported in the publish prepare phase"
    );
    let mut none = LocalSteps::new("/ctx", vec![]);
    assert_eq!(run_local_steps(&mut none, Ok(())).action, LocalAction::Done(Ok(())));
    let mut state = LocalSteps::new("/ctx", vec![archive()]);
    run_local_steps(&mut state, Ok(()));
    let LocalAction::Done(Err(e)) = run_local_steps(&mut state, Err(boom())).action else {
        panic!("the run fails");
    };
    assert_eq!(e.to_string(), "cannot create publish step log dir: /ctx/build/logs: boom");
    let mut state = LocalSteps::new("/ctx", vec![TestStep::Run(step("a", "one"))]);
    for _ in 0..3 {
        run_local_steps(&mut state, Ok(()));
    }
    let out = run_local_steps(&mut state, Err(boom()));
    assert_eq!(out.action, LocalAction::Done(Err(boom())));
}

// ---------------------------------------------------------------------------
// Phases
// ---------------------------------------------------------------------------

fn ok_at(now: u128) -> PhaseEvent {
    PhaseEvent { last: Ok(()), poll: Ok(()), now }
}

fn test_run(asserts: bool, discs: bool) -> PhaseRun {
    let config = TestConfig {
        image: None,
        isos: Vec::new(),
        ports: Vec::new(),
        steps: Vec::new(),
        files: vec![Default::default()],
        diagnostics_units: Vec::new(),
        step_timeout: 60,
        timeout: 1000,
        cloud_init_timeout: 100,
        cloud_init: None,
        assert_block: if asserts { Some(Default::default()) } else { None },
    };
    let bootstraps = if discs {
        vec![TestIsoBootstrap {
            label: "seed".to_string(),
            mount: "/mnt/seed".to_string(),
            bootstrap: "go.sh".to_string(),
        }]
    } else {
        Vec::new()
    };
    run_test_flow("/ctx", &config, bootstraps)
}

#[test]
fn phases_follow_one_another() {
    assert_eq!(step_log_dir("/ctx"), "/ctx/build/logs");
    let mut run = test_run(true, true);
    let mut next = |now: u128| run_step_flow(&mut run, &ok_at(now));
    assert_eq!(next(0).action, PhaseAction::MakeDir { path: "/ctx/build/logs".to_string() });
    let out = next(0);
    assert_eq!(out.action, PhaseAction::WaitForSsh { limit: nanos(300) });
    assert_eq!(
        out.notes,
        vec![PhaseNote::Title { description: "Waiting for SSH".to_string() }]
    );
    let out = next(nanos(950));
    assert_eq!(
        out.action,
        PhaseAction::RunInGuest {
            command: "sudo cloud-init status --wait".to_string(),
            retries: OFTEN,
            limit: nanos(50),
        }
    );
    assert_eq!(out.notes.len(), 2);
    assert_eq!(next(0).action, PhaseAction::WaitForStableSsh);
    assert_eq!(
        next(0).action,
        PhaseAction::RunInGuest {
            command: "sudo mkdir -p '/mnt/seed' && sudo mount -L 'seed' -o ro '/mnt/seed'"
                .to_string(),
            retries: OFTEN,
            limit: nanos(100),
        }
    );
    assert_eq!(
        next(0).action,
        PhaseAction::RunInGuest {
            command: "sudo bash '/mnt/seed/go.sh'".to_string(),
            retries: OFTEN,
            limit: nanos(100),
        }
    );
    assert_eq!(next(0).action, PhaseAction::StageFiles);
    assert_eq!(next(0).action, PhaseAction::RunAsserts);
    assert_eq!(next(0).action, PhaseAction::RunSteps);
    assert_eq!(next(0).action, PhaseAction::Done(Ok(())));
}

#[test]
fn a_phase_that_fails_ends_the_run() {
    let mut run = test_run(false, true);
    for _ in 0..5 {
        run_step_flow(&mut run, &ok_at(0));
    }
    assert_eq!(run.phase, Phase::Mount(0));
    let failed = PhaseEvent { last: Err(boom()), poll: Ok(()), now: 0 };
    let PhaseAction::Done(Err(e)) = run_step_flow(&mut run, &failed).action else {
        panic!("the run fails");
    };
    assert_eq!(e.to_string(), "iso bootstrap mount failed for label seed: boom");

    let mut run = test_run(false, false);
    run_step_flow(&mut run, &ok_at(0));
    let PhaseAction::Done(Err(e)) = run_step_flow(&mut run, &failed).action else {
        panic!("the run fails");
    };
    assert_eq!(e.to_string(), "cannot create test step log dir: /ctx/build/logs: boom");

    let mut run = test_run(false, false);
    run_step_flow(&mut run, &ok_at(0));
    let out = run_step_flow(&mut run, &ok_at(nanos(1000)));
    assert!(matches!(out.action, PhaseAction::Done(Err(_))));
    assert!(out.notes.is_empty());

    let mut run = test_run(false, false);
    for _ in 0..5 {
        run_step_flow(&mut run, &ok_at(0));
    }
    assert_eq!(run.phase, Phase::Files);
    assert_eq!(run_step_flow(&mut run, &ok_at(0)).action, PhaseAction::RunSteps);
}

// ---------------------------------------------------------------------------
// Assertions
// ---------------------------------------------------------------------------

fn block() -> AssertBlock {
    AssertBlock {
        groups: vec![("docker".to_string(), AssertGroup { exists: true })],
        packages: vec![("curl".to_string(), AssertPackage { installed: true })],
        ..Default::default()
    }
}

#[test]
fn assertions_are_checked_kind_by_kind_and_then_plugin_by_plugin() {
    let words: Vec<&str> = known_verbs().iter().map(|v| v.as_str()).collect();
    assert_eq!(words, ["files", "users", "groups", "packages", "services"]);
    assert_eq!(verbs_of(&block()), vec![AssertVerb::Groups, AssertVerb::Packages]);
    let mut state = AssertPhase::new(
        &block(),
        vec!["ports".to_string(), "dns".to_string()],
        vec!["ports".to_string()],
    );
    let ok = Ok(());
    let mut seen = Vec::new();
    loop {
        let action = run_assert_phase(&mut state, &ok);
        let done = matches!(action, AssertAction::Done(_));
        seen.push(action);
        if done {
            break;
        }
    }
    assert_eq!(
        seen,
        vec![
            AssertAction::RunBuiltin(AssertVerb::Groups),
            AssertAction::RunBuiltin(AssertVerb::Packages),
            AssertAction::Serialize(0),
            AssertAction::BuildProbe(0),
            AssertAction::RunProbe(0),
            AssertAction::Evaluate(0),
            AssertAction::ReportChecks(0),
            AssertAction::Done(Err(PlanError::text(
                "no assert provider for verb 'dns' (built-in verbs: files, users, groups, \
                 packages, services; plugin verbs: ports)"
            ))),
        ]
    );
    assert_eq!(state.stage, AssertStage::Finished);
}

#[test]
fn an_assertion_that_fails_ends_the_checking() {
    let failed = Err(boom());
    let ends = |steps: usize, text: &str| {
        let mut state =
            AssertPhase::new(&Default::default(), vec!["ports".to_string()], vec!["ports".to_string()]);
        for _ in 0..steps {
            run_assert_phase(&mut state, &Ok(()));
        }
        assert_eq!(
            run_assert_phase(&mut state, &failed),
            AssertAction::Done(Err(PlanError::text(text)))
        );
    };
    ends(1, "assert.ports: failed to serialize config to JSON: boom");
    ends(2, "assert.ports: build_probe failed: boom");
    ends(3, "assert.ports: probe failed: boom");
    ends(4, "assert.ports: evaluate failed: boom");
    ends(5, "boom");
    let mut unknown = AssertPhase::new(&Default::default(), vec!["x".to_string()], vec![]);
    assert_eq!(
        run_assert_phase(&mut unknown, &Ok(())),
        AssertAction::Done(Err(PlanError::text(
            "no assert provider for verb 'x' (built-in verbs: files, users, groups, packages, \
             services; (no plugin-provided assert verbs loaded))"
        )))
    );
    let mut builtin = AssertPhase::new(&block(), vec![], vec![]);
    run_assert_phase(&mut builtin, &Ok(()));
    assert_eq!(run_assert_phase(&mut builtin, &failed), AssertAction::Done(Err(boom())));
}

// ---------------------------------------------------------------------------
// Stopping the machine
// ---------------------------------------------------------------------------

fn stopping(poweroff: bool) -> Shutdown {
    Shutdown::new("/b/disk.partial", "/b/disk.failed", poweroff, true, nanos(500), 500)
}

fn look(now: u128, vm: VmState) -> ShutdownEvent {
    ShutdownEvent::Look { interrupted: false, now, vm }
}

#[test]
fn a_machine_that_stops_cleanly_keeps_its_disk() {
    let mut state = stopping(true);
    let out = shutdown_build_vm(&mut state, ShutdownEvent::Clock { interrupted: false, now: 0 });
    assert_eq!(out.note, Some(ShutdownNote::Title));
    assert_eq!(
        out.action,
        ShutdownAction::RunInGuest {
            command: "sudo systemctl poweroff".to_string(),
            retries: ONCE,
            secs: 10,
        }
    );
    let out = shutdown_build_vm(&mut state, ShutdownEvent::Ended(Err(boom())));
    assert_eq!(out.action, ShutdownAction::ReadClock);
    let out = shutdown_build_vm(&mut state, ShutdownEvent::Clock { interrupted: false, now: 5 });
    assert_eq!(out.action, ShutdownAction::LookAtVm { pause: 0 });
    assert_eq!(state.poweroff_deadline, 5 + nanos(120));
    let out = shutdown_build_vm(&mut state, look(nanos(1), VmState::Running));
    assert_eq!(out.action, ShutdownAction::LookAtVm { pause: 500_000_000 });
    let out = shutdown_build_vm(&mut state, look(nanos(2), VmState::Exited { success: true }));
    assert_eq!(out.action, ShutdownAction::Done(Ok(())));
    assert_eq!(out.note, Some(ShutdownNote::Status { ok: true }));
    assert_eq!(state.verdict, ShutdownVerdict::Clean);
}

fn watched() -> Shutdown {
    let mut state = stopping(false);
    shutdown_build_vm(&mut state, ShutdownEvent::Clock { interrupted: false, now: 0 });
    shutdown_build_vm(&mut state, ShutdownEvent::Clock { interrupted: false, now: 0 });
    assert_eq!(state.phase, ShutdownPhase::Watching);
    state
}

#[test]
fn a_machine_that_does_not_stop_is_killed_and_its_disk_set_aside() {
    let mut state = watched();
    let out = shutdown_build_vm(&mut state, look(nanos(120), VmState::Running));
    assert_eq!(out.action, ShutdownAction::Kill);
    let out = shutdown_build_vm(&mut state, ShutdownEvent::Ended(Ok(())));
    assert_eq!(out.action, ShutdownAction::LookFor { path: "/b/disk.failed".to_string() });
    let out = shutdown_build_vm(&mut state, ShutdownEvent::Found(true));
    assert_eq!(out.action, ShutdownAction::Remove { path: "/b/disk.failed".to_string() });
    let out = shutdown_build_vm(&mut state, ShutdownEvent::Ended(Ok(())));
    assert_eq!(
        out.action,
        ShutdownAction::Rename {
            from: "/b/disk.partial".to_string(),
            to: "/b/disk.failed".to_string()
        }
    );
    let out = preserve_failed_build_disk(&mut state, ShutdownEvent::Ended(Ok(())));
    assert_eq!(out.note, Some(ShutdownNote::Status { ok: false }));
    assert_eq!(
        out.action,
        ShutdownAction::Done(Err(PlanError::text(
            "build VM did not shut down cleanly; partial disk left at /b/disk.failed for post-mortem"
        )))
    );
}

#[test]
fn a_disk_that_cannot_be_set_aside_is_told() {
    let mut state = watched();
    shutdown_build_vm(&mut state, look(0, VmState::Exited { success: false }));
    assert_eq!(state.phase, ShutdownPhase::Looking);
    shutdown_build_vm(&mut state, ShutdownEvent::Found(true));
    let out = shutdown_build_vm(&mut state, ShutdownEvent::Ended(Err(boom())));
    assert_eq!(
        out.action,
        ShutdownAction::Done(Err(PlanError::text(
            "cannot replace previous failed build disk: /b/disk.failed: boom"
        )))
    );
    let mut state = watched();
    shutdown_build_vm(&mut state, look(0, VmState::Exited { success: false }));
    shutdown_build_vm(&mut state, ShutdownEvent::Found(false));
    let out = shutdown_build_vm(&mut state, ShutdownEvent::Ended(Err(boom())));
    assert_eq!(
        out.action,
        ShutdownAction::Done(Err(PlanError::text(
            "cannot preserve failed build disk from /b/disk.partial to /b/disk.failed: boom"
        )))
    );
}

#[test]
fn interrupts_and_lost_machines_end_the_stopping() {
    let mut state = watched();
    let out =
        shutdown_build_vm(&mut state, look(0, VmState::Unknown { error: "gone".to_string() }));
    assert_eq!(out.note, None);
    assert_eq!(out.action, ShutdownAction::Kill);
    let out = shutdown_build_vm(&mut state, ShutdownEvent::Ended(Ok(())));
    assert_eq!(
        out.note,
        Some(ShutdownNote::Warning {
            text: "warning: failed to poll build VM status: gone".to_string()
        })
    );
    assert_eq!(out.action, ShutdownAction::LookFor { path: "/b/disk.failed".to_string() });

    let mut state = stopping(true);
    let out = shutdown_build_vm(&mut state, ShutdownEvent::Clock { interrupted: true, now: 0 });
    assert_eq!(out.action, ShutdownAction::Kill);
    shutdown_build_vm(&mut state, ShutdownEvent::Ended(Ok(())));
    shutdown_build_vm(&mut state, ShutdownEvent::Found(false));
    let out = shutdown_build_vm(&mut state, ShutdownEvent::Ended(Ok(())));
    assert_eq!(
        out.action,
        ShutdownAction::Done(Err(PlanError::text(
            "build interrupted; tainted partial disk left at /b/disk.failed for post-mortem"
        )))
    );

    let mut state = watched();
    shutdown_build_vm(&mut state, look(nanos(500), VmState::Running));
    assert_eq!(state.verdict, ShutdownVerdict::OverTime);
}

#[test]
fn a_machine_stops_well_after_a_test_if_it_was_killed_and_awaited() {
    assert!(cleanup_test(None));
    assert!(cleanup_test(Some((true, true))));
    assert!(!cleanup_test(Some((true, false))));
    assert!(!cleanup_test(Some((false, true))));
}

// ---------------------------------------------------------------------------
// Waiting
// ---------------------------------------------------------------------------

fn ready() -> StableEvent {
    StableEvent::Ready { poll: Ok(()), now: 0 }
}

#[test]
fn a_connection_is_stable_after_enough_probes_in_a_row() {
    let mut state = StableSsh::new(5, 2);
    let mut probe = |ok: bool| {
        let first = require_stable_ssh_with_deadline(&mut state, ready(), nanos(4), 4);
        let StableAction::Probe { command, retries, limit } = first else {
            panic!("the guest is probed");
        };
        assert_eq!((command.as_str(), retries, limit), ("true", ONCE, nanos(4)));
        require_stable_ssh_with_deadline(
            &mut state,
            StableEvent::Probed { ok, now: 0 },
            nanos(4),
            4,
        )
    };
    assert!(matches!(probe(true), StableAction::Pause { .. }));
    assert!(matches!(probe(false), StableAction::Pause { .. }));
    assert!(matches!(probe(true), StableAction::Pause { .. }));
    assert!(matches!(probe(true), StableAction::Done(Ok(()))));

    let mut state = StableSsh::new(1, 2);
    require_stable_ssh_with_deadline(&mut state, ready(), nanos(4), 4);
    require_stable_ssh_with_deadline(
        &mut state,
        StableEvent::Probed { ok: true, now: 0 },
        nanos(4),
        4,
    );
    let StableAction::Done(Err(e)) =
        require_stable_ssh_with_deadline(&mut state, ready(), nanos(4), 4)
    else {
        panic!("the wait fails");
    };
    assert_eq!(e.to_string(), "SSH was not stable enough after 1 probes");
    let mut state = StableSsh::new(1, 2);
    let late = StableEvent::Ready { poll: Ok(()), now: nanos(4) };
    assert!(matches!(
        require_stable_ssh_with_deadline(&mut state, late, nanos(4), 4),
        StableAction::Done(Err(_))
    ));
}

/// The command of a step in the guest, with an attempt under way.
fn attempting(tries: usize) -> SshStep {
    let retries = Retries { tries, delay_secs: 2 };
    let mut step = SshStep::new("s".to_string(), 30, 600, retries, 300);
    let output = run_ssh_step_capturing(&mut step, SshEvent::Ended(Ok(())));
    assert!(matches!(output.action, SshAction::OpenLog));
    let output = run_ssh_step_capturing(&mut step, SshEvent::Ended(Ok(())));
    assert!(matches!(output.action, SshAction::Poll));
    let output = run_ssh_step_capturing(&mut step, SshEvent::Ended(Ok(())));
    assert!(matches!(output.action, SshAction::Attempt { connect_secs: 300 }));
    step
}

fn reset() -> SshEvent {
    SshEvent::Attempted(SshExecOutcome::TransportError("reset".to_string()))
}

#[test]
fn only_transport_failures_are_tried_again() {
    let after = |outcome: SshExecOutcome| {
        let mut step = attempting(3);
        run_ssh_step_with_step_log(&mut step, SshEvent::Attempted(outcome)).action
    };
    let error = |action: SshAction<()>| match action {
        SshAction::Done(Err(e)) => e.to_string(),
        other => panic!("expected a failure: {other:?}"),
    };
    assert!(matches!(after(SshExecOutcome::Success), SshAction::Done(Ok(()))));
    assert_eq!(error(after(SshExecOutcome::StepTimeout)), "guest step 's' timed out after 30s");
    assert_eq!(
        error(after(SshExecOutcome::OverallTimeout)),
        "overall run timed out after 600s"
    );
    assert_eq!(
        error(after(SshExecOutcome::RemoteFailure(2))),
        "ssh command failed (exit status: 2)"
    );

    let mut step = attempting(2);
    assert!(matches!(run_ssh_step_with_step_log(&mut step, reset()).action, SshAction::Poll));
    for expected in ["Pause { secs: 2 }", "Poll", "Attempt { connect_secs: 300 }"] {
        let output = run_ssh_step_with_step_log(&mut step, SshEvent::Ended(Ok(())));
        assert_eq!(format!("{:?}", output.action), expected);
    }
    assert_eq!(
        error(run_ssh_step_with_step_log(&mut step, reset()).action),
        "ssh command failed (transport error, retries exhausted): reset"
    );

    let mut step = attempting(2);
    run_ssh_step_with_step_log(&mut step, reset());
    let interrupted = SshEvent::Ended(Err(PlanError::new("interrupted".to_string())));
    assert_eq!(error(run_ssh_step_with_step_log(&mut step, interrupted).action), "interrupted");
}

#[test]
fn what_a_guest_writes_is_logged_by_lines_and_kept() {
    let line = |stream: StepOutputStream, text: &str| LogLine { stream, line: text.into() };
    let output = |is_stderr: bool, text: &str| SshEvent::Output { is_stderr, data: text.into() };
    let (out, err) = (StepOutputStream::Stdout, StepOutputStream::Stderr);
    let mut step = attempting(2);
    run_ssh_step_capturing(&mut step, output(false, "lost"));
    run_ssh_step_capturing(&mut step, reset());
    for _ in 0..3 {
        run_ssh_step_capturing(&mut step, SshEvent::Ended(Ok(())));
    }

    let first = run_ssh_step_capturing(&mut step, output(false, "one\ntw"));
    assert!(matches!(first.action, SshAction::GoOn));
    assert_eq!(first.log, vec![line(out, "one")]);
    let second = run_ssh_step_capturing(&mut step, output(true, "oh"));
    assert_eq!(second.log, vec![]);
    let third = run_ssh_step_capturing(&mut step, output(false, "o\n\nrest"));
    assert_eq!(third.log, vec![line(out, "two"), line(out, "")]);
    let last = run_ssh_step_capturing(
        &mut step,
        SshEvent::Attempted(SshExecOutcome::RemoteFailure(7)),
    );
    assert_eq!(last.log, vec![line(out, "rest"), line(err, "oh")]);
    let SshAction::Done(Ok((capture, code))) = last.action else {
        panic!("the code is handed on");
    };
    assert_eq!(code, 7);
    assert_eq!(capture.stdout, "one\ntwo\n\nrest");
    assert_eq!(capture.stderr, "oh");

    let mut step = attempting(2);
    run_ssh_step_capturing(&mut step, SshEvent::Output { is_stderr: false, data: vec![b'a', 255] });
    let last = run_ssh_step_capturing(
        &mut step,
        SshEvent::Attempted(SshExecOutcome::RemoteFailure(u32::MAX)),
    );
    let SshAction::Done(Ok((capture, code))) = last.action else {
        panic!("the code is handed on");
    };
    assert_eq!(code, -1);
    assert_eq!(capture.stdout, "a\u{fffd}");
}

#[test]
fn streams_are_shown_kept_and_logged() {
    let mut stream = ChildStream::new();
    let mut kept: Vec<u8> = Vec::new();
    let mut chunks: Vec<&str> = vec!["", "lf\nend", "a\nb\nha"];
    let mut shown: Vec<u8> = Vec::new();
    let mut logged: Vec<String> = Vec::new();
    let mut event = StreamEvent::Ended(Ok(()));
    loop {
        event = match stream_child_output_capturing(&mut stream, &mut kept, event) {
            StreamAction::Read => StreamEvent::Read(Ok(chunks.pop().unwrap().into())),
            StreamAction::Forward { data } => {
                shown.extend(data);
                StreamEvent::Ended(Ok(()))
            }
            StreamAction::Log { line } => {
                logged.push(String::from_utf8(line).unwrap());
                StreamEvent::Ended(Ok(()))
            }
            StreamAction::Done(r) => {
                assert_eq!(r, Ok(()));
                break;
            }
        };
    }
    assert_eq!(shown, b"a\nb\nhalf\nend".to_vec());
    assert_eq!(kept, shown);
    assert_eq!(logged, vec!["a", "b", "half", "end"]);

    let broken = || Err(PlanError::new("broken pipe".to_string()));
    let mut stream = ChildStream::new();
    stream_child_output(&mut stream, StreamEvent::Ended(Ok(())));
    let StreamAction::Done(Err(e)) =
        stream_child_output(&mut stream, StreamEvent::Read(Err(PlanError::new("gone".to_string()))))
    else {
        panic!("the reading ends");
    };
    assert_eq!(e.to_string(), "failed to read child process output: gone");
    let mut stream = ChildStream::new();
    stream_child_output(&mut stream, StreamEvent::Ended(Ok(())));
    stream_child_output(&mut stream, StreamEvent::Read(Ok(b"x".to_vec())));
    let StreamAction::Done(Err(e)) =
        stream_child_output_capturing(&mut stream, &mut kept, StreamEvent::Ended(broken()))
    else {
        panic!("the reading ends");
    };
    assert_eq!(e.to_string(), "failed to forward child process output: broken pipe");
    assert_eq!(kept, shown);
}

fn host_step() -> HostStep {
    HostStep::new(
        "h".to_string(),
        "exit 3".to_string(),
        vec!["bash".to_string(), "-e".to_string(), "{0}".to_string()],
        None,
        vec![("BF_ENV".to_string(), "/tmp/env".to_string())],
        "/tmp/env".to_string(),
        "/tmp/out".to_string(),
        "/tmp/h.sh".to_string(),
        StepExecutionBudget { step_timeout: 5, overall_deadline: nanos(9), overall_timeout: 9 },
    )
}

/// A command on the host that was started at the time two.
fn started() -> HostStep {
    let mut step = host_step();
    while step.phase != HostPhase::Attaching {
        run_host_step(&mut step, HostEvent::Ended(Ok(())));
    }
    let attached = HostEvent::Attached { result: Ok(()), now: nanos(2) };
    assert!(matches!(run_host_step(&mut step, attached), HostAction::Look));
    step
}

fn looked(look: HostLook, now: u64) -> HostEvent {
    HostEvent::Looked { poll: Ok(()), look: Ok(look), now: nanos(now) }
}

fn exited(code: Option<i32>) -> HostEvent {
    looked(HostLook::Exited { code, status: "exit status: 3".to_string() }, 3)
}

fn joined() -> HostEvent {
    HostEvent::Joined { stdout: Some(b"out".to_vec()), stderr: Some(b"err".to_vec()) }
}

#[test]
fn commands_on_the_host_start_prepared() {
    let mut step = host_step();
    let mut next = || format!("{:?}", run_host_step(&mut step, HostEvent::Ended(Ok(()))));
    assert_eq!(next(), "CreateFile { path: \"/tmp/env\" }");
    assert_eq!(next(), "CreateFile { path: \"/tmp/out\" }");
    assert_eq!(next(), "ReadMode { path: \"/tmp/env\" }");
    assert_eq!(next(), format!("SetMode {{ path: \"/tmp/env\", mode: {} }}", 0o666));
    assert_eq!(next(), "ReadMode { path: \"/tmp/out\" }");
    assert_eq!(next(), format!("SetMode {{ path: \"/tmp/out\", mode: {} }}", 0o666));
    assert_eq!(next(), "WriteFile { path: \"/tmp/h.sh\", body: \"exit 3\" }");
    assert_eq!(next(), "OpenLog");
    assert_eq!(
        next(),
        "Spawn { argv: [\"bash\", \"-e\", \"/tmp/h.sh\"], env: [(\"BF_ENV\", \"/tmp/env\")] }"
    );
    assert_eq!(next(), "Attach");

    let troubles = [
        "failed to create env file for host step 'h': no",
        "failed to create out file for host step 'h': no",
        "failed to stat env file for host step 'h': no",
        "failed to chmod env file for host step 'h': no",
        "failed to stat out file for host step 'h': no",
        "failed to chmod out file for host step 'h': no",
        "failed to write script file for host step 'h': no",
        "no",
        "failed to spawn host step 'h': no",
    ];
    for (n, expected) in troubles.into_iter().enumerate() {
        let mut step = host_step();
        for _ in 0..=n {
            run_host_step(&mut step, HostEvent::Ended(Ok(())));
        }
        let no = HostEvent::Ended(Err(PlanError::new("no".to_string())));
        let HostAction::Done(Err(e)) = run_host_step(&mut step, no) else {
            panic!("the step ends");
        };
        assert_eq!(e.to_string(), expected);
    }
}

#[test]
fn a_step_without_a_shell_falls_back_to_sh() {
    let command = |shell: Option<&str>| {
        let mut run = guest_run();
        let mut s = step("greet", "true");
        s.shell = shell.map(str::to_string);
        s.sudo = Some(false);
        let mut env = Vec::new();
        let mut action = RunAction::Done(Ok(()));
        while run.phase != RunPhase::Executing {
            action = run_run_step(&mut run, &mut s, &mut env, RunEvent::Ended(Ok(())));
        }
        match action {
            RunAction::Execute { command, .. } => command,
            other => panic!("expected a command: {other:?}"),
        }
    };
    let bash = command(Some("bash"));
    let sh = command(Some("sh"));
    assert!(sh.contains(" sh -e "), "{sh}");
    assert_eq!(
        command(None),
        format!("if command -v bash >/dev/null 2>&1; then {bash}; else {sh}; fi")
    );

    let missing = || HostEvent::Missing(PlanError::new("no bash".to_string()));
    let spawning = |fallback: Option<Vec<String>>| {
        let mut step = host_step();
        step.fallback = fallback;
        while step.phase != HostPhase::Spawning {
            run_host_step(&mut step, HostEvent::Ended(Ok(())));
        }
        step
    };
    let mut step = spawning(resolve_shell(Some("sh")).ok());
    let HostAction::Spawn { argv, .. } = run_host_step(&mut step, missing()) else {
        panic!("the other interpreter is tried");
    };
    assert_eq!(argv, vec!["sh", "-e", "/tmp/h.sh"]);
    assert!(matches!(run_host_step(&mut step, HostEvent::Ended(Ok(()))), HostAction::Attach));
    for mut step in [spawning(None), {
        let mut step = spawning(resolve_shell(Some("sh")).ok());
        run_host_step(&mut step, missing());
        step
    }] {
        let HostAction::Done(Err(e)) = run_host_step(&mut step, missing()) else {
            panic!("the step ends");
        };
        assert_eq!(e.to_string(), "failed to spawn host step 'h': no bash");
    }
}

#[test]
fn a_command_on_the_host_ends_at_the_first_deadline() {
    let mut step = started();
    assert!(matches!(
        run_host_step(&mut step, looked(HostLook::Running, 6)),
        HostAction::Poll
    ));
    assert!(matches!(
        run_host_step(&mut step, HostEvent::Ended(Ok(()))),
        HostAction::Pause { time: 200_000_000 }
    ));
    assert!(matches!(run_host_step(&mut step, HostEvent::Ended(Ok(()))), HostAction::Look));
    assert!(matches!(
        run_host_step(&mut step, looked(HostLook::Running, 7)),
        HostAction::Kill
    ));
    assert!(matches!(run_host_step(&mut step, HostEvent::Ended(Ok(()))), HostAction::Join));
    let HostAction::RemoveFile { path } = run_host_step(&mut step, joined()) else {
        panic!("the script is removed");
    };
    assert_eq!(path, "/tmp/h.sh");
    let HostAction::Done(Err(e)) = run_host_step(&mut step, HostEvent::Ended(Ok(()))) else {
        panic!("the step fails");
    };
    assert_eq!(e.to_string(), "host step 'h' timed out after 5s");

    let mut step = started();
    step.budget.overall_deadline = nanos(4);
    run_host_step(&mut step, looked(HostLook::Running, 4));
    run_host_step(&mut step, HostEvent::Ended(Ok(())));
    run_host_step(&mut step, joined());
    let HostAction::Done(Err(e)) = run_host_step(&mut step, HostEvent::Ended(Ok(()))) else {
        panic!("the step fails");
    };
    assert_eq!(e.to_string(), "overall run timed out after 9s");
}

#[test]
fn commands_on_the_host_succeed_with_code_zero() {
    let run = |code: Option<i32>| {
        let mut step = started();
        assert!(matches!(run_host_step(&mut step, exited(code)), HostAction::Join));
        assert!(matches!(run_host_step(&mut step, joined()), HostAction::RemoveFile { .. }));
        match run_host_step(&mut step, HostEvent::Ended(Ok(()))) {
            HostAction::Done(r) => r,
            other => panic!("expected the end: {other:?}"),
        }
    };
    assert!(run(Some(0)).is_ok());
    let failed = "host step 'h' exited with status: exit status: 3";
    assert_eq!(run(Some(3)).unwrap_err().to_string(), failed);
    assert_eq!(run(None).unwrap_err().to_string(), failed);

    let judged = |code: Option<i32>, event: HostEvent| {
        let mut step = started();
        run_host_step_capturing(&mut step, exited(code));
        run_host_step_capturing(&mut step, event);
        match run_host_step_capturing(&mut step, HostEvent::Ended(Ok(()))) {
            HostAction::Done(r) => r,
            other => panic!("expected the end: {other:?}"),
        }
    };
    let (capture, code) = judged(Some(3), joined()).unwrap();
    assert_eq!((capture.stdout.as_str(), capture.stderr.as_str(), code), ("out", "err", 3));
    assert_eq!(judged(None, joined()).unwrap().1, -1);
    let lost = HostEvent::Joined { stdout: Some(vec![]), stderr: None };
    let error = judged(Some(0), lost).unwrap_err().to_string();
    assert_eq!(error, "stderr capture mutex poisoned");

    let mut step = started();
    let gone = HostEvent::Looked {
        poll: Ok(()),
        look: Err(PlanError::new("gone".to_string())),
        now: 0,
    };
    let HostAction::Done(Err(e)) = run_host_step(&mut step, gone) else {
        panic!("the step ends");
    };
    assert_eq!(e.to_string(), "failed to wait for host step 'h': gone");
}

#[test]
fn budgets_end_with_the_run() {
    assert_eq!(nanos(2), 2 * NANOS_PER_SEC);
    assert_eq!(deadline(3, 2), 3 + nanos(2));
    assert_eq!(remaining_budget(10, 4), 6);
    assert_eq!(remaining_budget(4, 10), 0);
    assert_eq!(capped_budget(nanos(10), nanos(4), 3), nanos(3));
    assert_eq!(capped_budget(nanos(10), nanos(8), 3), nanos(2));
    assert!(ensure_overall_budget(&Ok(()), 3, 4, 1).is_ok());
    assert!(ensure_overall_budget(&Ok(()), 4, 4, 1).is_err());
    assert_eq!(ensure_overall_budget(&Err(boom()), 3, 4, 1), Err(boom()));
}
