//! Timeouts and deadlines.

use botforge_plan::budget::resolve_step_timeout;
use botforge_plan::step::{RunStep, StepCondition, StepTarget};

#[test]
fn test_resolve_step_timeout_prefers_per_step_override() {
    let step = RunStep {
        target: StepTarget::Host,
        name: "timeout-step".to_string(),
        run: "echo ok".to_string(),
        timeout: Some(45),
        shell: None,
        sudo: None,
        id: None,
        expect: None,
        condition: StepCondition::Always,
        outputs: Vec::new(),
        captured_outputs: None,
    };
    assert_eq!(
        resolve_step_timeout(step.timeout, 300),
        45
    );
}

#[test]
fn test_resolve_step_timeout_falls_back_to_document_default() {
    let step = RunStep {
        target: StepTarget::Host,
        name: "timeout-step".to_string(),
        run: "echo ok".to_string(),
        timeout: None,
        shell: None,
        sudo: None,
        id: None,
        expect: None,
        condition: StepCondition::Always,
        outputs: Vec::new(),
        captured_outputs: None,
    };
    assert_eq!(
        resolve_step_timeout(step.timeout, 1800),
        1800
    );
}
