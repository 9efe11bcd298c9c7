//! Outputs of steps and the references to them.

use botforge_plan::error::PlanError;
use botforge_plan::outputs::{capture_declared_step_outputs, EvaluatedValue};
use botforge_plan::scope::{
    inherited_value, resolve_fragment_output_reference, resolve_invoke_deferred_with,
    resolve_invoke_outputs, resolve_run_step_output_refs, InheritedRef,
};
use botforge_plan::step::{
    CapturedOutput, FragmentOutputDecl, InvokeStep, OutputDecl, OutputType, OutputValue, RunStep,
    StepCondition, StepTarget, TestStep,
};
use botforge_plan::value::Node;

fn output_decl(output_type: OutputType, required: bool) -> OutputDecl {
    OutputDecl {
        output_type,
        required,
    }
}

fn host_run_step_with_outputs(outputs: Vec<(&str, OutputDecl)>) -> RunStep {
    RunStep {
        target: StepTarget::Host,
        name: "capture-step".to_string(),
        run: "echo ok".to_string(),
        timeout: None,
        shell: None,
        sudo: None,
        id: None,
        expect: None,
        condition: StepCondition::Always,
        outputs: outputs
            .into_iter()
            .map(|(name, decl)| (name.to_string(), decl))
            .collect(),
        captured_outputs: None,
    }
}

fn consumer_step(run: &str) -> RunStep {
    RunStep {
        target: StepTarget::Host,
        name: "consumer".to_string(),
        run: run.to_string(),
        timeout: None,
        shell: None,
        sudo: None,
        id: None,
        expect: None,
        condition: StepCondition::Always,
        outputs: Vec::new(),
        captured_outputs: None,
    }
}

fn executed_invoke(id: &str, outputs: Vec<CapturedOutput>) -> TestStep {
    TestStep::Invoke(InvokeStep {
        uses: "frag.yaml".to_string(),
        id: Some(id.to_string()),
        steps: vec![],
        output_decls: vec![],
        deferred_with: Vec::new(),
        captured_outputs: Some(outputs),
    })
}

fn executed_run_with_outputs(id: &str, outputs: Vec<CapturedOutput>) -> TestStep {
    TestStep::Run(RunStep {
        target: StepTarget::Host,
        name: "producer".to_string(),
        run: "true".to_string(),
        timeout: None,
        shell: None,
        sudo: None,
        id: Some(id.to_string()),
        expect: None,
        condition: StepCondition::Always,
        outputs: Vec::new(),
        captured_outputs: Some(outputs),
    })
}

fn captured(name: &str, declared_type: OutputType, value: OutputValue) -> CapturedOutput {
    CapturedOutput {
        name: name.to_string(),
        declared_type,
        value,
    }
}

fn invoke_with_deferred_with(with: &[(&str, &str)]) -> InvokeStep {
    InvokeStep {
        uses: "@://user-frag.yaml".to_string(),
        id: None,
        steps: vec![],
        output_decls: vec![],
        deferred_with: with
            .iter()
            .map(|(k, v)| (k.to_string(), Node::String(v.to_string())))
            .collect(),
        captured_outputs: None,
    }
}

#[test]
fn test_capture_declared_step_outputs_errors_when_read_fails() {
    let mut step =
        host_run_step_with_outputs(vec![("must_emit", output_decl(OutputType::String, true))]);

    let err = capture_declared_step_outputs(&mut step, || Err(PlanError::text("ssh transport hiccup")))
        .unwrap_err();
    let msg = err.to_string();

    assert!(
        msg.contains("failed to read $BF_OUT") && msg.contains("capture-step"),
        "expected BF_OUT read context in error: {msg}"
    );
    assert!(step.captured_outputs.is_none());
}

#[test]
fn test_capture_declared_step_outputs_skips_read_when_no_outputs_declared() {
    let mut step = host_run_step_with_outputs(vec![]);
    let mut read_called = false;

    capture_declared_step_outputs(&mut step, || {
        read_called = true;
        Err(PlanError::text("should not read"))
    })
    .unwrap();

    assert!(
        !read_called,
        "steps without outputs should not read $BF_OUT"
    );
    assert!(step.captured_outputs.is_none());
}

#[test]
fn test_capture_declared_step_outputs_stores_captured_values() {
    let mut step =
        host_run_step_with_outputs(vec![("label", output_decl(OutputType::String, true))]);

    capture_declared_step_outputs(&mut step, || Ok("label=hello\n".to_string())).unwrap();

    let captured = &step.captured_outputs;
    let captured = captured.as_ref().expect("captured outputs");
    assert_eq!(captured.len(), 1);
    assert_eq!(captured[0].value, OutputValue::String("hello".to_string()));
}

#[test]
fn test_resolve_run_refs_backward_invoke_ref_resolves() {
    let scope = vec![
        executed_invoke(
            "build",
            vec![
                captured(
                    "version",
                    OutputType::String,
                    OutputValue::String("1.2.3".to_string()),
                ),
                captured("count", OutputType::Number, OutputValue::Number("7.0".to_string())),
                captured("ready", OutputType::Bool, OutputValue::Bool(true)),
            ],
        ),
        TestStep::Run(consumer_step("echo noop")),
    ];
    let step = consumer_step(
        "echo ${{ steps.build.outputs.version }}/${{ steps.build.outputs.count }}/${{ steps.build.outputs.ready }}",
    );

    let resolved = resolve_run_step_output_refs(
        &step,
        &scope,
        1,
        None,
        &Vec::new(),
    )
    .unwrap();
    assert_eq!(resolved, "echo 1.2.3/7/true");
}

#[test]
fn test_resolve_run_refs_null_projects_as_empty_string() {
    let scope = vec![
        executed_invoke(
            "build",
            vec![captured("maybe", OutputType::String, OutputValue::Null)],
        ),
        TestStep::Run(consumer_step("echo noop")),
    ];
    let step = consumer_step("echo [${{ steps.build.outputs.maybe }}]");

    let resolved = resolve_run_step_output_refs(
        &step,
        &scope,
        1,
        None,
        &Vec::new(),
    )
    .unwrap();
    assert_eq!(resolved, "echo []");
}

#[test]
fn test_resolve_run_refs_no_refs_is_identity() {
    let step = consumer_step("echo plain");
    let scope = vec![TestStep::Run(consumer_step("echo noop"))];
    let resolved = resolve_run_step_output_refs(
        &step,
        &scope,
        0,
        None,
        &Vec::new(),
    )
    .unwrap();
    assert_eq!(resolved, "echo plain");
}

#[test]
fn test_resolve_run_refs_unknown_id_is_error() {
    let step = consumer_step("echo ${{ steps.nope.outputs.version }}");
    let scope = vec![TestStep::Run(consumer_step(
        "echo ${{ steps.nope.outputs.version }}",
    ))];
    let err = resolve_run_step_output_refs(
        &step,
        &scope,
        0,
        None,
        &Vec::new(),
    )
    .unwrap_err();
    let msg = err.to_string();
    assert!(
        msg.contains("no step with id 'nope' exists in the current scope"),
        "unknown id must be a hard error: {msg}"
    );
}

#[test]
fn test_resolve_run_refs_forward_reference_is_error() {
    let step = consumer_step("echo ${{ steps.later.outputs.version }}");
    let scope = vec![
        TestStep::Run(consumer_step("echo ${{ steps.later.outputs.version }}")),
        executed_invoke(
            "later",
            vec![captured(
                "version",
                OutputType::String,
                OutputValue::String("1.2.3".to_string()),
            )],
        ),
    ];
    let err = resolve_run_step_output_refs(
        &step,
        &scope,
        0,
        None,
        &Vec::new(),
    )
    .unwrap_err();
    let msg = err.to_string();
    assert!(
        msg.contains("has not run yet"),
        "forward reference must be a hard error: {msg}"
    );
}

#[test]
fn test_resolve_invoke_deferred_with_backward_sibling_resolves() {
    // The headline OTP scenario: an executed `uses:` sibling (id: admin)
    // produced a captured output; a later invoke consumes it via
    // `otp: ${{ steps.admin.outputs.testuser_otp }}` in its with: block.
    let invoke =
        invoke_with_deferred_with(&[("otp", "${{ steps.admin.outputs.testuser_otp }}")]);
    let scope = vec![
        executed_invoke(
            "admin",
            vec![captured(
                "testuser_otp",
                OutputType::String,
                OutputValue::String("otp-12345".to_string()),
            )],
        ),
        TestStep::Invoke(invoke),
    ];
    let TestStep::Invoke(invoke) = &scope[1] else {
        unreachable!()
    };
    let resolved =
        resolve_invoke_deferred_with(invoke, &scope, 1, &Vec::new())
            .unwrap();
    assert_eq!(
        inherited_value(&resolved, "admin", "testuser_otp"),
        Some(EvaluatedValue::String("otp-12345".to_string())),
        "the child must inherit the real resolved value"
    );
}

#[test]
fn test_resolve_invoke_deferred_with_run_step_producer_resolves() {
    let invoke = invoke_with_deferred_with(&[("count", "${{ steps.emit.outputs.count }}")]);
    let scope = vec![
        executed_run_with_outputs(
            "emit",
            vec![captured(
                "count",
                OutputType::Number,
                OutputValue::Number("7.0".to_string()),
            )],
        ),
        TestStep::Invoke(invoke),
    ];
    let TestStep::Invoke(invoke) = &scope[1] else {
        unreachable!()
    };
    let resolved =
        resolve_invoke_deferred_with(invoke, &scope, 1, &Vec::new())
            .unwrap();
    assert_eq!(
        inherited_value(&resolved, "emit", "count"),
        Some(EvaluatedValue::Number("7.0".to_string()))
    );
}

#[test]
fn test_resolve_invoke_deferred_with_forward_reference_is_error() {
    let invoke = invoke_with_deferred_with(&[("otp", "${{ steps.admin.outputs.otp }}")]);
    let scope = vec![
        TestStep::Invoke(invoke),
        executed_invoke(
            "admin",
            vec![captured(
                "otp",
                OutputType::String,
                OutputValue::String("late".to_string()),
            )],
        ),
    ];
    let TestStep::Invoke(invoke) = &scope[0] else {
        unreachable!()
    };
    let err =
        resolve_invoke_deferred_with(invoke, &scope, 0, &Vec::new())
            .unwrap_err();
    let msg = err.to_string();
    assert!(
        msg.contains("has not run yet"),
        "forward reference in with: must be a hard error: {msg}"
    );
}

#[test]
fn test_resolve_invoke_deferred_with_unknown_step_is_error() {
    let invoke = invoke_with_deferred_with(&[("otp", "${{ steps.nope.outputs.otp }}")]);
    let scope = vec![TestStep::Invoke(invoke)];
    let TestStep::Invoke(invoke) = &scope[0] else {
        unreachable!()
    };
    let err =
        resolve_invoke_deferred_with(invoke, &scope, 0, &Vec::new())
            .unwrap_err();
    let msg = err.to_string();
    assert!(
        msg.contains("no step with id"),
        "unknown reference in with: must be a hard error: {msg}"
    );
}

#[test]
fn test_resolve_invoke_deferred_with_outputs_ref_is_error() {
    let invoke = invoke_with_deferred_with(&[("x", "${{ outputs.value }}")]);
    let scope = vec![TestStep::Invoke(invoke)];
    let TestStep::Invoke(invoke) = &scope[0] else {
        unreachable!()
    };
    let err =
        resolve_invoke_deferred_with(invoke, &scope, 0, &Vec::new())
            .unwrap_err();
    let msg = err.to_string();
    assert!(
        msg.contains("outputs.* not available"),
        "outputs.* in outer-scope with: must be a hard error: {msg}"
    );
}

#[test]
fn test_resolve_invoke_deferred_with_inherited_ref_takes_precedence() {
    // An outer-scope ref already resolved at a previous invocation boundary
    // is forwarded to the child without a local-scope lookup.
    let invoke = invoke_with_deferred_with(&[("otp", "${{ steps.outer.outputs.otp }}")]);
    let scope = vec![TestStep::Invoke(invoke)];
    let TestStep::Invoke(invoke) = &scope[0] else {
        unreachable!()
    };
    let inherited = vec![InheritedRef {
        step_id: "outer".to_string(),
        output: "otp".to_string(),
        value: EvaluatedValue::String("from-outer".to_string()),
    }];
    let resolved = resolve_invoke_deferred_with(invoke, &scope, 0, &inherited).unwrap();
    assert_eq!(
        inherited_value(&resolved, "outer", "otp"),
        Some(EvaluatedValue::String("from-outer".to_string()))
    );
}

#[test]
fn test_resolve_invoke_deferred_with_empty_yields_empty_map() {
    let invoke = invoke_with_deferred_with(&[]);
    let scope = vec![TestStep::Invoke(invoke)];
    let TestStep::Invoke(invoke) = &scope[0] else {
        unreachable!()
    };
    let resolved =
        resolve_invoke_deferred_with(invoke, &scope, 0, &Vec::new())
            .unwrap();
    assert!(resolved.is_empty());
}

#[test]
fn test_resolve_run_refs_run_step_id_resolves() {
    let scope = vec![
        executed_run_with_outputs(
            "build",
            vec![captured(
                "version",
                OutputType::String,
                OutputValue::String("2.0.0".to_string()),
            )],
        ),
        TestStep::Run(consumer_step("echo noop")),
    ];
    let step = consumer_step("echo ${{ steps.build.outputs.version }}");
    let resolved = resolve_run_step_output_refs(
        &step,
        &scope,
        1,
        None,
        &Vec::new(),
    )
    .unwrap();
    assert_eq!(resolved, "echo 2.0.0");
}

#[test]
fn test_resolve_run_refs_secret_output_uses_real_value() {
    let scope = vec![
        executed_run_with_outputs(
            "build",
            vec![captured(
                "token",
                OutputType::Secret,
                OutputValue::String("super-secret-token".to_string()),
            )],
        ),
        TestStep::Run(consumer_step("echo noop")),
    ];
    let step = consumer_step("echo ${{ steps.build.outputs.token }}");
    let resolved = resolve_run_step_output_refs(
        &step,
        &scope,
        1,
        None,
        &Vec::new(),
    )
    .unwrap();
    assert_eq!(resolved, "echo super-secret-token");
}

#[test]
fn test_captured_output_display_value_secret_masks() {
    // CapturedOutput::display_value() must mask secrets at display sinks.
    let c = captured(
        "token",
        OutputType::Secret,
        OutputValue::String("super-secret-token".to_string()),
    );
    assert_eq!(
        c.display_value(),
        "***",
        "display_value must return *** for a secret output"
    );
    // Use sink still gets the real value.
    assert_eq!(
        c.value.to_use_string(),
        "super-secret-token",
        "to_use_string must return the real value at use sinks"
    );
}

#[test]
fn test_captured_output_display_value_non_secret_shows_real() {
    let c = captured(
        "version",
        OutputType::String,
        OutputValue::String("1.2.3".to_string()),
    );
    assert_eq!(c.display_value(), "1.2.3");
}

#[test]
fn test_resolver_error_on_secret_output_does_not_leak_raw_value() {
    // Resolver errors must never include the raw secret value in their message.
    // The "no captured outputs" error path should only mention step/output names.
    let scope = vec![
        TestStep::Invoke(InvokeStep {
            uses: "frag.yaml".to_string(),
            id: Some("fetch".to_string()),
            steps: vec![],
            output_decls: vec![],
            deferred_with: Vec::new(),
            captured_outputs: None,
        }),
        TestStep::Run(consumer_step("echo noop")),
    ];
    let step = consumer_step("echo ${{ steps.fetch.outputs.token }}");
    let err = resolve_run_step_output_refs(
        &step,
        &scope,
        1,
        None,
        &Vec::new(),
    )
    .unwrap_err();
    let msg = err.to_string();
    // Confirm the error is about missing outputs (not a value leak).
    assert!(
        msg.contains("has no captured outputs"),
        "resolver error should describe the problem, not the value: {msg}"
    );
    // Confirm no raw secret value appears (defensive — the value is not even set here).
    assert!(
        !msg.contains("super-secret"),
        "resolver error must not contain a raw secret value: {msg}"
    );
}

#[test]
fn test_resolver_error_unknown_output_does_not_leak_raw_value() {
    // "does not declare output X" error must mention the name but not any raw secret.
    let secret_val = "raw-secret-xyz";
    let scope = vec![
        executed_run_with_outputs(
            "fetch",
            vec![captured(
                "token",
                OutputType::Secret,
                OutputValue::String(secret_val.to_string()),
            )],
        ),
        TestStep::Run(consumer_step("echo noop")),
    ];
    let step = consumer_step("echo ${{ steps.fetch.outputs.nope }}");
    let err = resolve_run_step_output_refs(
        &step,
        &scope,
        1,
        None,
        &Vec::new(),
    )
    .unwrap_err();
    let msg = err.to_string();
    assert!(
        msg.contains("does not declare output 'nope'"),
        "error must describe the problem: {msg}"
    );
    assert!(
        !msg.contains(secret_val),
        "resolver error must not contain the raw secret value: {msg}"
    );
}

#[test]
fn test_invoke_reexported_secret_output_is_secret_typed_and_masks_at_display() {
    // A secret inner output re-exported through a fragment boundary must:
    // - stay Secret-typed on invoke.captured_outputs
    // - mask via display_value()
    // - resolve real at the use sink

    let inner_run = executed_run_with_outputs(
        "fetcher",
        vec![captured(
            "token",
            OutputType::Secret,
            OutputValue::String("my-secret-value".to_string()),
        )],
    );

    let mut invoke = InvokeStep {
        uses: "frag.yaml".to_string(),
        id: Some("call".to_string()),
        steps: vec![inner_run],
        output_decls: vec![FragmentOutputDecl {
            name: "token".to_string(),
            output_type: OutputType::Secret,
            value: "${{ steps.fetcher.outputs.token }}".to_string(),
            required: true,
            default: None,
        }],
        deferred_with: Vec::new(),
        captured_outputs: None,
    };

    resolve_invoke_outputs(&mut invoke).unwrap();

    let guard = &invoke.captured_outputs;
    let outputs = guard
        .as_ref()
        .expect("captured_outputs must be set after resolution");
    assert_eq!(outputs.len(), 1, "one output expected");
    let out = &outputs[0];

    // Must stay Secret-typed at the boundary.
    assert_eq!(
        out.declared_type,
        OutputType::Secret,
        "re-exported secret must remain Secret-typed at Invoke boundary"
    );
    // Display sink: must mask.
    assert_eq!(
        out.display_value(),
        "***",
        "re-exported secret must mask at display sinks"
    );
    // Use sink: must be real.
    assert_eq!(
        out.value.to_use_string(),
        "my-secret-value",
        "re-exported secret must resolve real at use sinks"
    );
}

#[test]
fn a_secret_that_is_not_of_the_declared_type_is_not_shown() {
    let secret = || {
        captured("token", OutputType::Secret, OutputValue::String("hunter2".to_string()))
    };
    let declared = || FragmentOutputDecl {
        name: "count".to_string(),
        output_type: OutputType::Number,
        value: "${{ steps.fetcher.outputs.token }}".to_string(),
        required: true,
        default: None,
    };
    let mut invoke = InvokeStep {
        uses: "frag.yaml".to_string(),
        id: Some("call".to_string()),
        steps: vec![executed_run_with_outputs("fetcher", vec![secret()])],
        output_decls: vec![declared()],
        deferred_with: Vec::new(),
        captured_outputs: None,
    };
    let error = resolve_invoke_outputs(&mut invoke).unwrap_err().to_string();
    assert_eq!(
        error,
        "fragment 'frag.yaml': failed to resolve output 'count': fragment output 'count': \
         resolved value does not satisfy declared type 'number': output 'count': \
         expected a number"
    );

    let scope = vec![executed_run_with_outputs("fetcher", vec![secret()])];
    let TestStep::Run(consumer) = executed_run_with_outputs("consumer", vec![]) else {
        panic!("a script");
    };
    let decls = vec![declared()];
    let error =
        resolve_fragment_output_reference(&consumer, &scope, &scope, Some(&decls), "count")
            .unwrap_err()
            .to_string();
    assert!(error.ends_with("output 'count': expected a number"), "{error}");
    assert!(!error.contains("hunter2"), "{error}");
}

#[test]
fn test_invoke_reexported_secret_use_sink_resolves_real_value() {
    // After boundary resolution, referencing the invoke's secret output via
    // ${{ steps.call.outputs.token }} must yield the real value (use sink).

    let inner_run = executed_run_with_outputs(
        "fetcher",
        vec![captured(
            "token",
            OutputType::Secret,
            OutputValue::String("boundary-secret".to_string()),
        )],
    );

    let mut invoke = InvokeStep {
        uses: "frag.yaml".to_string(),
        id: Some("call".to_string()),
        steps: vec![inner_run],
        output_decls: vec![FragmentOutputDecl {
            name: "token".to_string(),
            output_type: OutputType::Secret,
            value: "${{ steps.fetcher.outputs.token }}".to_string(),
            required: true,
            default: None,
        }],
        deferred_with: Vec::new(),
        captured_outputs: None,
    };

    resolve_invoke_outputs(&mut invoke).unwrap();

    // Wire the resolved invoke into a scope and resolve a use-sink reference.
    let scope = vec![
        TestStep::Invoke(invoke),
        TestStep::Run(consumer_step("echo noop")),
    ];
    let step = consumer_step("echo ${{ steps.call.outputs.token }}");
    let resolved = resolve_run_step_output_refs(
        &step,
        &scope,
        1,
        None,
        &Vec::new(),
    )
    .unwrap();
    // Use sink must receive the real value.
    assert_eq!(
        resolved, "echo boundary-secret",
        "use sink reference to re-exported secret must resolve real"
    );
}

#[test]
fn test_resolve_run_refs_unknown_output_name_is_error() {
    let scope = vec![
        executed_invoke(
            "build",
            vec![captured(
                "version",
                OutputType::String,
                OutputValue::String("1.2.3".to_string()),
            )],
        ),
        TestStep::Run(consumer_step("echo noop")),
    ];
    let step = consumer_step("echo ${{ steps.build.outputs.nope }}");

    let err = resolve_run_step_output_refs(
        &step,
        &scope,
        1,
        None,
        &Vec::new(),
    )
    .unwrap_err();
    let msg = err.to_string();
    assert!(
        msg.contains("does not declare output 'nope'"),
        "unknown output name must be a hard error: {msg}"
    );
}

#[test]
fn test_resolve_run_refs_invoke_without_outputs_is_error() {
    let scope = vec![
        TestStep::Invoke(InvokeStep {
            uses: "frag.yaml".to_string(),
            id: Some("build".to_string()),
            steps: vec![],
            output_decls: vec![],
            deferred_with: Vec::new(),
            captured_outputs: None,
        }),
        TestStep::Run(consumer_step("echo noop")),
    ];
    let step = consumer_step("echo ${{ steps.build.outputs.version }}");

    let err = resolve_run_step_output_refs(
        &step,
        &scope,
        1,
        None,
        &Vec::new(),
    )
    .unwrap_err();
    let msg = err.to_string();
    assert!(
        msg.contains("has no captured outputs"),
        "invoke without outputs must be a hard error: {msg}"
    );
}

#[test]
fn test_resolve_run_refs_fragment_outputs_ref_resolves_with_default() {
    let scope = vec![
        executed_run_with_outputs(
            "emit",
            vec![captured(
                "version",
                OutputType::String,
                OutputValue::String("1.2.3".to_string()),
            )],
        ),
        executed_run_with_outputs(
            "quiet",
            vec![captured("maybe", OutputType::String, OutputValue::Null)],
        ),
        TestStep::Run(consumer_step("echo noop")),
    ];
    let step = consumer_step("echo ${{ outputs.version }}-${{ outputs.fallback }}");
    let decls = vec![
        FragmentOutputDecl {
            name: "version".to_string(),
            output_type: OutputType::String,
            value: "${{ steps.emit.outputs.version }}".to_string(),
            required: true,
            default: None,
        },
        FragmentOutputDecl {
            name: "fallback".to_string(),
            output_type: OutputType::String,
            value: "${{ steps.quiet.outputs.maybe }}".to_string(),
            required: false,
            default: Some(OutputValue::String("defaulted".to_string())),
        },
    ];

    let resolved = resolve_run_step_output_refs(
        &step,
        &scope,
        2,
        Some(&decls[..]),
        &Vec::new(),
    )
    .unwrap();
    assert_eq!(resolved, "echo 1.2.3-defaulted");
}

#[test]
fn test_resolve_run_refs_fragment_outputs_ref_forward_is_error() {
    let scope = vec![
        TestStep::Run(consumer_step("echo noop")),
        executed_run_with_outputs(
            "emit",
            vec![captured(
                "version",
                OutputType::String,
                OutputValue::String("1.2.3".to_string()),
            )],
        ),
    ];
    let step = consumer_step("echo ${{ outputs.version }}");
    let decls = vec![FragmentOutputDecl {
        name: "version".to_string(),
        output_type: OutputType::String,
        value: "${{ steps.emit.outputs.version }}".to_string(),
        required: true,
        default: None,
    }];

    let err = resolve_run_step_output_refs(
        &step,
        &scope,
        0,
        Some(&decls[..]),
        &Vec::new(),
    )
    .unwrap_err();
    let msg = err.to_string();
    assert!(
        msg.contains("has not run yet"),
        "forward fragment output reference must fail: {msg}"
    );
}
