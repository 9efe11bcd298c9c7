//! Documents: reading, repeating steps, substituting, merging and checking.

use botforge_plan::cloud_init::{
    cloud_init_schema_mode, locate_cloud_init_binary, merge_cloud_init_mappings,
    parse_cloud_init_schema_output, render_cloud_init_schema_document, run_cloud_init_schema_check,
    validate_cloud_init_schema_fragment, CloudInitSchemaCheck, CloudInitSchemaMode, SchemaAction,
    SchemaEvent,
};
use botforge_plan::document::default_bootstrap_path;
use botforge_plan::error::PlanError;
use botforge_plan::includes::{IncludeAction, Includes, RawTestStep, TestStepInclude};
use botforge_plan::paths::is_same_path;
use botforge_plan::reference::{path_stays_below, Reference};
use botforge_plan::references::{parse_references, Piece};
use botforge_plan::repeat::{expand_raw_step, resolve_for_args, scalar_value_to_string};
use botforge_plan::sections::{step_shape, StepShape};
use botforge_plan::step::{RunStep, StepCondition, StepTarget, TestStep};
use botforge_plan::template::{
    substitute_args_in_value, substitute_inputs_in_string, substitute_namespace_in_string,
};
use botforge_plan::value::{same_value, Entry, Node};
use botforge_plan::yaml::{
    cloud_init_schema_document, parse_yaml, plugin_settings_json, read_build_document, read_fragment_document, read_test_document,
};

fn text(s: &str) -> Node {
    Node::String(s.to_string())
}

fn mapping(entries: Vec<(&str, Node)>) -> Node {
    Node::Mapping(fields(entries))
}

fn fields(entries: Vec<(&str, Node)>) -> Vec<Entry> {
    entries.into_iter().map(|(k, value)| Entry { key: text(k), value }).collect()
}

fn pair(k: &str, v: &str) -> (String, String) {
    (k.to_string(), v.to_string())
}

#[test]
fn yaml_reads_as_plain_values() {
    let read = parse_yaml("a: [1, 2.5, true, ~, 'x']\nb: {c: d}\n").unwrap();
    let expected = mapping(vec![
        (
            "a",
            Node::Sequence(vec![
                Node::Number("1".to_string()),
                Node::Number("2.5".to_string()),
                Node::Bool(true),
                Node::Null,
                text("x"),
            ]),
        ),
        ("b", mapping(vec![("c", text("d"))])),
    ]);
    assert_eq!(read, expected);
    assert!(same_value(&read, &expected));
    assert_eq!(
        parse_yaml("!secret x").unwrap(),
        Node::Tagged("!secret".to_string(), Box::new(text("x")))
    );
    assert!(parse_yaml("a: [").is_err());
}

#[test]
fn documents_of_the_wrong_kind_are_refused() {
    assert!(read_test_document("t.yaml", "type: test\nsteps: []\n").is_ok());
    assert!(read_build_document("b.yaml", "type: build\nsteps: []\n").is_ok());
    assert!(read_fragment_document("f.yaml", "type: fragment\nsteps: []\n").is_ok());
    let broken = read_test_document("t.yaml", "a: [").unwrap_err().to_string();
    assert!(broken.contains("t.yaml"), "{broken}");
    let mixed = read_test_document("t.yaml", "type: test\ncompress: {}\n").unwrap_err();
    assert!(mixed.to_string().contains("compress"), "{mixed:?}");
    let boot = read_build_document("b.yaml", "type: build\nbootcmd: []\n").unwrap_err();
    assert!(boot.to_string().contains("bootcmd"), "{boot:?}");
}

#[test]
fn a_step_is_repeated_for_each_item() {
    let step = mapping(vec![
        ("name", text("install ${{ args.0 }}")),
        ("for", Node::Sequence(vec![text("curl"), Node::Number("7".to_string())])),
        ("run", text("apt install ${{ args.0 }}")),
    ]);
    let expansion = expand_raw_step(step);
    assert!(expansion.error.is_none());
    let names: Vec<&str> = expansion.steps.iter().map(|s| s.name.as_str()).collect();
    assert_eq!(names, ["install curl", "install 7"]);
    assert_eq!(
        expansion.steps[0].body,
        mapping(vec![("name", text("install curl")), ("run", text("apt install curl"))])
    );
    let once = expand_raw_step(mapping(vec![("run", text("x"))]));
    assert_eq!(once.steps.len(), 1);
    assert_eq!(once.steps[0].name, "<unnamed>");
    let bad = expand_raw_step(mapping(vec![("for", text("x"))]));
    assert_eq!(bad.error.unwrap().to_string(), "step `for:` must be a sequence");
    let bad = expand_raw_step(text("x"));
    assert_eq!(bad.error.unwrap().to_string(), "step entry must be a mapping");
}

#[test]
fn items_give_arguments_by_position_or_by_name() {
    assert_eq!(resolve_for_args(&text("a")).unwrap(), vec![pair("0", "a")]);
    assert_eq!(
        resolve_for_args(&Node::Sequence(vec![text("a"), Node::Bool(false)])).unwrap(),
        vec![pair("0", "a"), pair("1", "false")]
    );
    assert_eq!(
        resolve_for_args(&mapping(vec![("k", Node::Null)])).unwrap(),
        vec![pair("k", "null")]
    );
    let key = Node::Mapping(vec![Entry { key: Node::Null, value: Node::Null }]);
    assert_eq!(
        resolve_for_args(&key).unwrap_err().to_string(),
        "step `for:` mapping keys must be strings"
    );
    assert_eq!(
        scalar_value_to_string(&Node::Sequence(vec![])).unwrap_err().to_string(),
        "step `for:` values must be scalars, sequences, or mappings"
    );
}

#[test]
fn placeholders_are_substituted_in_their_namespace() {
    let inputs = vec![pair("name", "bot")];
    assert_eq!(substitute_inputs_in_string("hi ${{ inputs.name }}!", &inputs).unwrap(), "hi bot!");
    assert_eq!(substitute_inputs_in_string("plain", &inputs).unwrap(), "plain");
    assert!(substitute_inputs_in_string("${{ inputs.other }}", &inputs).is_err());
    assert!(substitute_inputs_in_string("${{ inputs.name", &inputs).is_err());
    let args = vec![pair("0", "x")];
    assert_eq!(
        substitute_namespace_in_string("${{ args.0 }} ${{ inputs.name }}", "args", &args).unwrap(),
        "x ${{ inputs.name }}"
    );
    let value = mapping(vec![("run", Node::Sequence(vec![text("${{ args.0 }}"), Node::Null]))]);
    assert_eq!(
        substitute_args_in_value(&value, &args).unwrap(),
        mapping(vec![("run", Node::Sequence(vec![text("x"), Node::Null]))])
    );
}

#[test]
fn references_are_found_in_text() {
    let pieces =
        parse_references("a ${{ steps.one.outputs.word }} b ${{ outputs.x }} c").unwrap();
    assert_eq!(
        pieces,
        vec![
            Piece::Literal("a ".to_string()),
            Piece::StepOutput { step_id: "one".to_string(), output: "word".to_string() },
            Piece::Literal(" b ".to_string()),
            Piece::FragmentOutput { output: "x".to_string() },
            Piece::Literal(" c".to_string()),
        ]
    );
}

#[test]
fn paths_of_references_stay_below() {
    assert!(path_stays_below("a/b"));
    assert!(!path_stays_below("a/../b"));
    assert!(!path_stays_below("/a"));
    assert_eq!(
        Reference::parse("@://a/b").unwrap(),
        Reference::Repo { path: Some("a/b".to_string()) }
    );
    assert_eq!(
        Reference::parse("@artifact://x").unwrap(),
        Reference::Artifact { path: Some("x".to_string()) }
    );
    assert!(Reference::parse("a/b").is_err());
    assert!(Reference::parse("@://../b").is_err());
}

#[test]
fn cloud_configs_merge_by_key() {
    let base = fields(vec![
        ("packages", Node::Sequence(vec![text("a")])),
        ("hostname", text("one")),
    ]);
    let overlay = fields(vec![
        ("packages", Node::Sequence(vec![text("b")])),
        ("hostname", text("two")),
        ("runcmd", Node::Sequence(vec![])),
    ]);
    assert_eq!(
        merge_cloud_init_mappings(base, overlay),
        fields(vec![
            ("packages", Node::Sequence(vec![text("a"), text("b")])),
            ("hostname", text("two")),
            ("runcmd", Node::Sequence(vec![])),
        ])
    );
}

#[test]
fn the_schema_counts_as_the_setting_says() {
    assert_eq!(cloud_init_schema_mode(None), CloudInitSchemaMode::Warn);
    assert_eq!(cloud_init_schema_mode(Some(" OFF ")), CloudInitSchemaMode::Off);
    assert_eq!(cloud_init_schema_mode(Some("Strict")), CloudInitSchemaMode::Strict);
    assert_eq!(cloud_init_schema_mode(Some("what")), CloudInitSchemaMode::Warn);
    let invalid = CloudInitSchemaCheck::Invalid("bad key".to_string());
    let verdict =
        validate_cloud_init_schema_fragment(CloudInitSchemaMode::Strict, "p", &invalid);
    assert_eq!(
        verdict.outcome.unwrap_err().to_string(),
        "cloud-init schema pre-validation failed for p:\nbad key"
    );
    let verdict = validate_cloud_init_schema_fragment(CloudInitSchemaMode::Warn, "p", &invalid);
    assert!(verdict.outcome.is_ok());
    assert_eq!(
        verdict.warning.as_deref(),
        Some("cloud-init schema pre-validation reported issues for p:\nbad key")
    );
    let failed = CloudInitSchemaCheck::InvocationFailed("no fork".to_string());
    let verdict = validate_cloud_init_schema_fragment(CloudInitSchemaMode::Strict, "p", &failed);
    assert!(verdict.outcome.is_ok());
    assert_eq!(
        verdict.warning.as_deref(),
        Some("cloud-init schema pre-validation skipped for p: no fork")
    );
}

#[test]
fn the_cloud_config_of_a_document_is_written_out() {
    let yaml = "type: test\ncloud_init:\n  packages: [curl, 'x: y']\n  n: 1.50\nsteps: []\n";
    let written = |mode: CloudInitSchemaMode, yaml: &str| {
        cloud_init_schema_document(mode, "t.yaml", yaml).unwrap()
    };
    assert_eq!(
        written(CloudInitSchemaMode::Warn, yaml).as_deref(),
        Some("#cloud-config\npackages:\n- curl\n- 'x: y'\nn: 1.5\n")
    );
    assert_eq!(written(CloudInitSchemaMode::Off, yaml), None);
    assert_eq!(written(CloudInitSchemaMode::Strict, "type: test\ncloud_init: ~\n"), None);
    assert_eq!(written(CloudInitSchemaMode::Strict, "[]"), None);
    assert!(cloud_init_schema_document(CloudInitSchemaMode::Warn, "t.yaml", "a: [").is_err());
}

#[test]
fn tags_do_not_hide_what_they_are_put_on() {
    let written = |yaml: &str| {
        cloud_init_schema_document(CloudInitSchemaMode::Warn, "t.yaml", yaml).unwrap()
    };
    let plain = Some("#cloud-config\nusers:\n- bot\n");
    assert_eq!(written("cloud_init: {users: [bot]}\n").as_deref(), plain);
    assert_eq!(written("cloud_init: !config {users: [bot]}\n").as_deref(), plain);
    assert_eq!(written("!plan\ncloud_init: !config {users: [bot]}\n").as_deref(), plain);
    assert_eq!(written("cloud_init: !config [bot]\n"), None);
    assert_eq!(
        plugin_settings_json("!plan\nassert: !all {ports: [80]}\n", "ports").unwrap().as_deref(),
        Some("[80]")
    );
}

#[test]
fn the_settings_of_a_plugin_are_written_as_json() {
    let yaml = "assert:\n  ports:\n    - {number: 80, open: true, note: 'a \"b\"'}\n";
    assert_eq!(
        plugin_settings_json(yaml, "ports").unwrap().as_deref(),
        Some("[{\"number\":80,\"open\":true,\"note\":\"a \\\"b\\\"\"}]")
    );
    assert_eq!(plugin_settings_json(yaml, "dns").unwrap(), None);
    assert_eq!(plugin_settings_json("steps: []", "dns").unwrap(), None);
    assert!(plugin_settings_json("assert: {p: {~: 1}}", "p").is_err());
}

#[test]
fn a_schema_check_falls_back_to_a_file() {
    assert_eq!(locate_cloud_init_binary(true).as_deref(), Some("cloud-init"));
    assert_eq!(locate_cloud_init_binary(false), None);
    assert_eq!(
        render_cloud_init_schema_document(Ok("a: 1\n".to_string())).unwrap(),
        "#cloud-config\na: 1\n"
    );
    assert_eq!(
        render_cloud_init_schema_document(Err(PlanError::text("deep"))).unwrap_err().to_string(),
        "failed to serialize cloud_init fragment as YAML: deep"
    );
    let next = run_cloud_init_schema_check;
    assert!(matches!(next(SchemaEvent::Located(true)), SchemaAction::RunStdin));
    assert!(matches!(
        next(SchemaEvent::Located(false)),
        SchemaAction::Done(CloudInitSchemaCheck::MissingBinary)
    ));
    assert!(matches!(
        next(SchemaEvent::Stdin(Ok(CloudInitSchemaCheck::Invalid("x".to_string())))),
        SchemaAction::RunTempFile
    ));
    assert!(matches!(
        next(SchemaEvent::TempFile(Err("gone".to_string()))),
        SchemaAction::Done(CloudInitSchemaCheck::InvocationFailed(e)) if e == "gone"
    ));
    assert_eq!(
        parse_cloud_init_schema_output(true, "", "", ""),
        CloudInitSchemaCheck::Pass
    );
    let said = |out: &str, err: &str| parse_cloud_init_schema_output(false, "exit status: 1", out, err);
    assert_eq!(said(" a ", " b "), CloudInitSchemaCheck::Invalid("b\na".to_string()));
    assert_eq!(
        said("", ""),
        CloudInitSchemaCheck::Invalid("cloud-init schema exited with exit status: 1".to_string())
    );
}

fn step(name: &str) -> TestStep {
    TestStep::Run(RunStep {
        target: StepTarget::Guest,
        name: name.to_string(),
        run: "true".to_string(),
        timeout: None,
        shell: None,
        sudo: None,
        id: None,
        expect: None,
        condition: StepCondition::Always,
        outputs: Vec::new(),
        captured_outputs: None,
    })
}

fn uses(path: &str) -> RawTestStep {
    RawTestStep::Include(TestStepInclude { uses: path.to_string(), with: Vec::new() })
}

fn next_load(includes: &mut Includes) -> IncludeAction {
    loop {
        match includes.expand_test_steps() {
            IncludeAction::Continue => {}
            other => return other,
        }
    }
}

#[test]
fn included_steps_take_the_place_of_the_include() {
    let mut includes = Includes::new(
        "/repo",
        "/repo/root.yaml",
        vec![RawTestStep::Step(step("a")), uses("@://frag.yaml"), RawTestStep::Step(step("c"))],
        None,
    );
    let IncludeAction::Load { path, .. } = next_load(&mut includes) else {
        panic!("the fragment is loaded");
    };
    assert_eq!(path, "/repo/frag.yaml");
    let cloud = fields(vec![("hostname", text("h"))]);
    includes.accept_fragment(vec![RawTestStep::Step(step("b"))], Some(cloud)).unwrap();
    let IncludeAction::Done { steps, cloud_init } = next_load(&mut includes) else {
        panic!("all is there");
    };
    let names: Vec<&str> = steps.iter().map(|s| s.display_name()).collect();
    assert_eq!(names, ["a", "b", "c"]);
    assert_eq!(cloud_init, Some(fields(vec![("hostname", text("h"))])));
}

#[test]
fn a_file_that_includes_itself_is_refused() {
    let mut includes = Includes::new("/repo", "/repo/a.yaml", vec![uses("@://a.yaml")], None);
    assert!(matches!(next_load(&mut includes), IncludeAction::Fail(_)));
}

#[test]
fn a_file_is_the_same_however_its_path_is_written() {
    for file in ["/repo//a.yaml", "/repo/./a.yaml", "/repo/a.yaml/"] {
        let mut includes = Includes::new("/repo", file, vec![uses("@://a.yaml")], None);
        let IncludeAction::Fail(e) = next_load(&mut includes) else {
            panic!("the file is taken in already");
        };
        let expected = format!("cyclic test step include detected: {file} -> /repo/a.yaml");
        assert_eq!(e.to_string(), expected);
    }
    let mut includes = Includes::new("/repo", "repo/a.yaml", vec![uses("@://a.yaml")], None);
    assert!(matches!(next_load(&mut includes), IncludeAction::Load { .. }));
    assert!(is_same_path("/a//b/./c/", "/a/b/c"));
    assert!(!is_same_path("./a", "a"));
    assert!(!is_same_path("/a", "a"));
    assert!(!is_same_path("/a/../b", "/b"));
}

#[test]
fn fragments_of_fragments_stand_in_their_places() {
    let mut includes = Includes::new(
        "/repo",
        "/repo/root.yaml",
        vec![uses("@://one.yaml"), RawTestStep::Step(step("d")), uses("@://two.yaml")],
        Some(fields(vec![("hostname", text("root"))])),
    );
    let steps = loop {
        match next_load(&mut includes) {
            IncludeAction::Load { path, .. } => {
                let (inner, name) = match path.as_str() {
                    "/repo/one.yaml" => (
                        vec![
                            RawTestStep::Step(step("a")),
                            uses("@://two.yaml"),
                            RawTestStep::Step(step("c")),
                        ],
                        "one",
                    ),
                    _ => (vec![RawTestStep::Step(step("b"))], "two"),
                };
                let cloud = fields(vec![("hostname", text(name))]);
                includes.accept_fragment(inner, Some(cloud)).unwrap();
            }
            IncludeAction::Done { steps, .. } => break steps,
            other => panic!("unexpected: {other:?}"),
        }
    };
    let names: Vec<&str> = steps.iter().map(|s| s.display_name()).collect();
    assert_eq!(names, ["a", "b", "c", "d", "b"]);
}

#[test]
fn steps_show_their_shape() {
    assert!(matches!(step_shape(&mapping(vec![("uses", text("x"))])), StepShape::Include));
    assert!(matches!(step_shape(&mapping(vec![("archive", Node::Null)])), StepShape::Archive));
    assert!(matches!(step_shape(&mapping(vec![("run", text("x"))])), StepShape::Run));
    assert!(!default_bootstrap_path().is_empty());
}
