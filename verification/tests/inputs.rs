//! Inputs of fragments.

use botforge_plan::inputs::{resolve_fragment_inputs, InputDeclaration, InputType};
use botforge_plan::pairs::lookup;

const FRAGMENT: &str = "fragment.yaml";

fn decl(input_type: InputType, required: bool, default: Option<&str>) -> InputDeclaration {
    InputDeclaration { input_type, required, default: default.map(str::to_string) }
}

fn with_map(pairs: &[(&str, &str)]) -> Vec<(String, String)> {
    pairs.iter().map(|(k, v)| (k.to_string(), v.to_string())).collect()
}

fn decl_map(pairs: Vec<(&str, InputDeclaration)>) -> Vec<(String, InputDeclaration)> {
    pairs.into_iter().map(|(k, d)| (k.to_string(), d)).collect()
}

#[test]
fn config_test_resolve_inputs_declared_default_applied_when_caller_omits_key() {
    let declarations = decl_map(vec![("shell", decl(InputType::String, false, Some("bash")))]);
    let with = Vec::new();
    let resolved = resolve_fragment_inputs(FRAGMENT, &declarations, &with).unwrap();
    assert_eq!(lookup(&resolved, "shell").as_deref(), Some("bash"));
}

#[test]
fn config_test_resolve_inputs_default_sentinel_resolves_to_declared_default() {
    let declarations = decl_map(vec![("shell", decl(InputType::String, false, Some("bash")))]);
    let with = with_map(&[("shell", "__default__")]);
    let resolved = resolve_fragment_inputs(FRAGMENT, &declarations, &with).unwrap();
    assert_eq!(lookup(&resolved, "shell").as_deref(), Some("bash"));
}

#[test]
fn config_test_resolve_inputs_default_sentinel_with_no_declared_default_yields_unset() {
    let declarations = decl_map(vec![("target", decl(InputType::String, false, None))]);
    let with = with_map(&[("target", "__default__")]);
    let resolved = resolve_fragment_inputs(FRAGMENT, &declarations, &with).unwrap();
    assert!(
        lookup(&resolved, "target").is_none(),
        "unset input must not appear in resolved map"
    );
}

#[test]
fn config_test_resolve_inputs_empty_string_yields_empty_not_default() {
    let declarations = decl_map(vec![("shell", decl(InputType::String, false, Some("bash")))]);
    let with = with_map(&[("shell", "")]);
    let resolved = resolve_fragment_inputs(FRAGMENT, &declarations, &with).unwrap();
    assert_eq!(
        lookup(&resolved, "shell").as_deref(),
        Some(""),
        "empty string must not be replaced by the declared default"
    );
}

#[test]
fn config_test_resolve_inputs_empty_string_satisfies_required() {
    let declarations = decl_map(vec![("target", decl(InputType::String, true, None))]);
    let with = with_map(&[("target", "")]);
    let result = resolve_fragment_inputs(FRAGMENT, &declarations, &with);
    assert!(
        result.is_ok(),
        "empty string must satisfy required: {result:?}"
    );
    assert_eq!(lookup(&result.unwrap(), "target").as_deref(), Some(""));
}

#[test]
fn config_test_resolve_inputs_number_type_valid() {
    let declarations = decl_map(vec![("count", decl(InputType::Number, false, None))]);
    let with = with_map(&[("count", "42")]);
    assert!(resolve_fragment_inputs(FRAGMENT, &declarations, &with).is_ok());
}

#[test]
fn config_test_resolve_inputs_number_type_valid_float() {
    let declarations = decl_map(vec![("ratio", decl(InputType::Number, false, None))]);
    let with = with_map(&[("ratio", "3.14")]);
    assert!(resolve_fragment_inputs(FRAGMENT, &declarations, &with).is_ok());
}

#[test]
fn config_test_resolve_inputs_number_type_invalid() {
    let declarations = decl_map(vec![("count", decl(InputType::Number, false, None))]);
    let with = with_map(&[("count", "not-a-number")]);
    let err = resolve_fragment_inputs(FRAGMENT, &declarations, &with).unwrap_err();
    let msg = err.to_string();
    assert!(
        msg.contains("count") && msg.contains("number"),
        "error must name the input and type: {msg}"
    );
}

#[test]
fn config_test_resolve_inputs_boolean_type_valid() {
    let declarations = decl_map(vec![("flag", decl(InputType::Boolean, false, None))]);
    for v in &["true", "false", "True", "FALSE"] {
        let with = with_map(&[("flag", v)]);
        assert!(
            resolve_fragment_inputs(FRAGMENT, &declarations, &with).is_ok(),
            "expected valid boolean for '{v}'"
        );
    }
}

#[test]
fn config_test_resolve_inputs_boolean_type_invalid() {
    let declarations = decl_map(vec![("flag", decl(InputType::Boolean, false, None))]);
    let with = with_map(&[("flag", "yes")]);
    let err = resolve_fragment_inputs(FRAGMENT, &declarations, &with).unwrap_err();
    let msg = err.to_string();
    assert!(
        msg.contains("flag") && msg.contains("boolean"),
        "error must name the input and type: {msg}"
    );
}

#[test]
fn config_test_resolve_inputs_default_sentinel_on_typed_input_is_not_parse_error() {
    // "__default__" on a number/boolean input resolves to the declared default,
    // not parsed as the type — so it must never produce a type error.
    let declarations = decl_map(vec![("count", decl(InputType::Number, false, Some("10")))]);
    let with = with_map(&[("count", "__default__")]);
    let resolved = resolve_fragment_inputs(FRAGMENT, &declarations, &with).unwrap();
    assert_eq!(lookup(&resolved, "count").as_deref(), Some("10"));
}

#[test]
fn config_test_resolve_inputs_undeclared_with_key_errors() {
    let declarations = Vec::new();
    let with = with_map(&[("unknown", "value")]);
    let err = resolve_fragment_inputs(FRAGMENT, &declarations, &with).unwrap_err();
    let msg = err.to_string();
    assert!(
        msg.contains("unknown"),
        "error must name the undeclared key: {msg}"
    );
}

#[test]
fn config_test_resolve_inputs_missing_required_when_omitted() {
    let declarations = decl_map(vec![("target", decl(InputType::String, true, None))]);
    let with = Vec::new();
    let err = resolve_fragment_inputs(FRAGMENT, &declarations, &with).unwrap_err();
    let msg = err.to_string();
    assert!(
        msg.contains("missing required input 'target'"),
        "unexpected error: {msg}"
    );
}

#[test]
fn config_test_resolve_inputs_declaration_required_and_default_contradiction() {
    let declarations = decl_map(vec![("shell", decl(InputType::String, true, Some("bash")))]);
    let with = Vec::new();
    let err = resolve_fragment_inputs(FRAGMENT, &declarations, &with).unwrap_err();
    let msg = err.to_string();
    assert!(
        msg.contains("shell") && msg.contains("required") && msg.contains("default"),
        "error must describe the contradiction: {msg}"
    );
}

#[test]
fn template_test_resolve_inputs_declared_default_applied_when_caller_omits_key() {
    let declarations = decl_map(vec![("shell", decl(InputType::String, false, Some("bash")))]);
    let with = Vec::new();
    let resolved = resolve_fragment_inputs(FRAGMENT, &declarations, &with).unwrap();
    assert_eq!(lookup(&resolved, "shell").as_deref(), Some("bash"));
}

#[test]
fn template_test_resolve_inputs_default_sentinel_resolves_to_declared_default() {
    let declarations = decl_map(vec![("shell", decl(InputType::String, false, Some("bash")))]);
    let with = with_map(&[("shell", "__default__")]);
    let resolved = resolve_fragment_inputs(FRAGMENT, &declarations, &with).unwrap();
    assert_eq!(lookup(&resolved, "shell").as_deref(), Some("bash"));
}

#[test]
fn template_test_resolve_inputs_default_sentinel_with_no_declared_default_yields_unset() {
    let declarations = decl_map(vec![("target", decl(InputType::String, false, None))]);
    let with = with_map(&[("target", "__default__")]);
    let resolved = resolve_fragment_inputs(FRAGMENT, &declarations, &with).unwrap();
    assert!(
        lookup(&resolved, "target").is_none(),
        "unset input must not appear in resolved map"
    );
}

#[test]
fn template_test_resolve_inputs_empty_string_yields_empty_not_default() {
    let declarations = decl_map(vec![("shell", decl(InputType::String, false, Some("bash")))]);
    let with = with_map(&[("shell", "")]);
    let resolved = resolve_fragment_inputs(FRAGMENT, &declarations, &with).unwrap();
    assert_eq!(
        lookup(&resolved, "shell").as_deref(),
        Some(""),
        "empty string must not be replaced by the declared default"
    );
}

#[test]
fn template_test_resolve_inputs_empty_string_satisfies_required() {
    let declarations = decl_map(vec![("target", decl(InputType::String, true, None))]);
    let with = with_map(&[("target", "")]);
    let result = resolve_fragment_inputs(FRAGMENT, &declarations, &with);
    assert!(
        result.is_ok(),
        "empty string must satisfy required: {result:?}"
    );
    assert_eq!(lookup(&result.unwrap(), "target").as_deref(), Some(""));
}

#[test]
fn template_test_resolve_inputs_number_type_valid() {
    let declarations = decl_map(vec![("count", decl(InputType::Number, false, None))]);
    let with = with_map(&[("count", "42")]);
    assert!(resolve_fragment_inputs(FRAGMENT, &declarations, &with).is_ok());
}

#[test]
fn template_test_resolve_inputs_number_type_valid_float() {
    let declarations = decl_map(vec![("ratio", decl(InputType::Number, false, None))]);
    let with = with_map(&[("ratio", "3.14")]);
    assert!(resolve_fragment_inputs(FRAGMENT, &declarations, &with).is_ok());
}

#[test]
fn template_test_resolve_inputs_number_type_invalid() {
    let declarations = decl_map(vec![("count", decl(InputType::Number, false, None))]);
    let with = with_map(&[("count", "not-a-number")]);
    let err = resolve_fragment_inputs(FRAGMENT, &declarations, &with).unwrap_err();
    let msg = err.to_string();
    assert!(
        msg.contains("count") && msg.contains("number"),
        "error must name the input and type: {msg}"
    );
}

#[test]
fn template_test_resolve_inputs_boolean_type_valid() {
    let declarations = decl_map(vec![("flag", decl(InputType::Boolean, false, None))]);
    for v in &["true", "false", "True", "FALSE"] {
        let with = with_map(&[("flag", v)]);
        assert!(
            resolve_fragment_inputs(FRAGMENT, &declarations, &with).is_ok(),
            "expected valid boolean for '{v}'"
        );
    }
}

#[test]
fn template_test_resolve_inputs_boolean_type_invalid() {
    let declarations = decl_map(vec![("flag", decl(InputType::Boolean, false, None))]);
    let with = with_map(&[("flag", "yes")]);
    let err = resolve_fragment_inputs(FRAGMENT, &declarations, &with).unwrap_err();
    let msg = err.to_string();
    assert!(
        msg.contains("flag") && msg.contains("boolean"),
        "error must name the input and type: {msg}"
    );
}

#[test]
fn template_test_resolve_inputs_default_sentinel_on_typed_input_is_not_parse_error() {
    // "__default__" on a number/boolean input resolves to the declared default,
    // not parsed as the type — so it must never produce a type error.
    let declarations = decl_map(vec![("count", decl(InputType::Number, false, Some("10")))]);
    let with = with_map(&[("count", "__default__")]);
    let resolved = resolve_fragment_inputs(FRAGMENT, &declarations, &with).unwrap();
    assert_eq!(lookup(&resolved, "count").as_deref(), Some("10"));
}

#[test]
fn template_test_resolve_inputs_undeclared_with_key_errors() {
    let declarations = Vec::new();
    let with = with_map(&[("unknown", "value")]);
    let err = resolve_fragment_inputs(FRAGMENT, &declarations, &with).unwrap_err();
    let msg = err.to_string();
    assert!(
        msg.contains("unknown"),
        "error must name the undeclared key: {msg}"
    );
}

#[test]
fn template_test_resolve_inputs_missing_required_when_omitted() {
    let declarations = decl_map(vec![("target", decl(InputType::String, true, None))]);
    let with = Vec::new();
    let err = resolve_fragment_inputs(FRAGMENT, &declarations, &with).unwrap_err();
    let msg = err.to_string();
    assert!(
        msg.contains("missing required input 'target'"),
        "unexpected error: {msg}"
    );
}

#[test]
fn template_test_resolve_inputs_declaration_required_and_default_contradiction() {
    let declarations = decl_map(vec![("shell", decl(InputType::String, true, Some("bash")))]);
    let with = Vec::new();
    let err = resolve_fragment_inputs(FRAGMENT, &declarations, &with).unwrap_err();
    let msg = err.to_string();
    assert!(
        msg.contains("shell") && msg.contains("required") && msg.contains("default"),
        "error must describe the contradiction: {msg}"
    );
}
