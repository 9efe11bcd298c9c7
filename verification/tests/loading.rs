//! Loading of plans: documents, the fragments they take in, and what is refused.

use botforge_plan::cloud_init::{CloudInitSchemaCheck, CloudInitSchemaMode};
use botforge_plan::document::{
    default_assert_exists, default_build_step_timeout, default_build_timeout, default_disk_size,
    default_test_step_timeout, default_test_timeout, AssertBlock, AssertFile, AssertFileType,
    AssertUser, DocumentType,
};
use botforge_plan::error::PlanError;
use botforge_plan::includes::{
    IncludeAction, Includes, RawTestStep, TestStepInclude, MAX_INCLUDE_DEPTH,
};
use botforge_plan::inputs::{InputDeclaration, InputType};
use botforge_plan::load::{
    build_schema_check_due, load_build_config, load_test_config, open_build_config,
    open_test_config, test_schema_check_due, BuildConfig, RawBuildDocument, RawTestDocument,
    TestConfig, TestIso,
};
use botforge_plan::reference::Reference;
use botforge_plan::sections::{
    extract_fragment_input_declarations, load_test_steps_fragment, step_shape, StepShape,
};
use botforge_plan::step::{
    parse_positive_seconds, RunStep, SecondsValue, StepCondition, StepTarget, TestStep,
};
use botforge_plan::validate::{FileEntry, PortSpec};
use botforge_plan::value::{text_entry, Entry, Node};
use botforge_plan::yaml::{
    parse_yaml, read_build_document, read_fragment_document, read_test_document,
};

/// The files of a repository.
struct Repo {
    files: Vec<(String, String)>,
}

type Read<T> = Result<T, PlanError>;

trait Parts {
    fn items(&self) -> Option<&Vec<Node>>;
    fn entries(&self) -> &[Entry];
    fn field(&self, name: &str) -> Option<&Node>;
    fn text(&self, name: &str) -> Option<String>;
    fn flag(&self, name: &str) -> Option<bool>;
    fn list(&self, name: &str) -> &[Node];
}

impl Parts for Node {
    fn items(&self) -> Option<&Vec<Node>> {
        match self {
            Node::Sequence(items) => Some(items),
            _ => None,
        }
    }

    fn entries(&self) -> &[Entry] {
        match self {
            Node::Mapping(entries) => entries,
            _ => &[],
        }
    }

    fn field(&self, name: &str) -> Option<&Node> {
        match self {
            Node::Mapping(entries) => text_entry(entries, name),
            _ => None,
        }
    }

    fn text(&self, name: &str) -> Option<String> {
        self.field(name).and_then(Node::as_text).map(str::to_string)
    }

    fn flag(&self, name: &str) -> Option<bool> {
        match self.field(name) {
            Some(Node::Bool(b)) => Some(*b),
            _ => None,
        }
    }

    fn list(&self, name: &str) -> &[Node] {
        match self.field(name) {
            Some(Node::Sequence(items)) => items,
            _ => &[],
        }
    }
}

fn document_type(value: &Node) -> Option<DocumentType> {
    match value.text("type").as_deref() {
        Some("test") => Some(DocumentType::Test),
        Some("build") => Some(DocumentType::Build),
        Some("fragment") => Some(DocumentType::Fragment),
        _ => None,
    }
}

fn seconds(value: &Node, name: &str) -> Read<Option<u64>> {
    let given = match value.field(name) {
        None => return Ok(None),
        Some(Node::Number(n)) => SecondsValue::Integer(n.parse().unwrap()),
        Some(other) => SecondsValue::String(other.as_text().unwrap().to_string()),
    };
    match parse_positive_seconds(given) {
        Ok(n) => Ok(Some(n)),
        Err(e) => Err(PlanError::new(e)),
    }
}

fn step(value: &Node) -> Read<RawTestStep> {
    if step_shape(value) == StepShape::Include {
        let with = value.field("with").map(Parts::entries).unwrap_or(&[]);
        return Ok(RawTestStep::Include(TestStepInclude {
            uses: value.text("uses").unwrap(),
            with: with
                .iter()
                .map(|e| {
                    let key = e.key.as_text().unwrap().to_string();
                    (key, e.value.as_text().unwrap().to_string())
                })
                .collect(),
        }));
    }
    Ok(RawTestStep::Step(TestStep::Run(RunStep {
        target: match value.text("on").as_deref() {
            Some("host") => StepTarget::Host,
            _ => StepTarget::Guest,
        },
        name: value.text("name").unwrap(),
        run: value.text("run").unwrap(),
        timeout: seconds(value, "timeout")?,
        shell: value.text("shell"),
        sudo: value.flag("sudo"),
        id: value.text("id"),
        expect: None,
        condition: StepCondition::Always,
        outputs: Vec::new(),
        captured_outputs: None,
    })))
}

fn steps(value: &Node) -> Read<Vec<RawTestStep>> {
    value.list("steps").iter().map(step).collect()
}

fn files(value: &Node) -> Vec<FileEntry> {
    value
        .list("files")
        .iter()
        .map(|f| FileEntry {
            src: f.text("src").unwrap(),
            dest: f.text("dest").unwrap(),
            mode: f.text("mode"),
            owner: f.text("owner"),
            group: f.text("group"),
            overwrite: f.flag("overwrite"),
            parents: f.flag("parents"),
        })
        .collect()
}

fn cloud_init(value: &Node) -> Option<Vec<Entry>> {
    match value.field("cloud_init") {
        Some(Node::Mapping(entries)) => Some(
            entries
                .iter()
                .map(|e| Entry { key: e.key.clone(), value: e.value.clone() })
                .collect(),
        ),
        _ => None,
    }
}

fn assertions(value: &Node) -> Option<AssertBlock> {
    let block = value.field("assert")?;
    let mut asserts = AssertBlock::default();
    for e in block.field("files").map(Parts::entries).unwrap_or(&[]) {
        asserts.files.push((
            e.key.as_text().unwrap().to_string(),
            AssertFile {
                exists: e.value.flag("exists").unwrap_or(default_assert_exists()),
                filetype: e.value.text("filetype").map(|_| AssertFileType::File),
                owner: e.value.text("owner"),
                group: e.value.text("group"),
                mode: e.value.text("mode"),
            },
        ));
    }
    for e in block.field("users").map(Parts::entries).unwrap_or(&[]) {
        asserts.users.push((
            e.key.as_text().unwrap().to_string(),
            AssertUser {
                exists: e.value.flag("exists").unwrap_or(default_assert_exists()),
                shell: e.value.text("shell"),
                groups: e
                    .value
                    .list("groups")
                    .iter()
                    .map(|g| g.as_text().unwrap().to_string())
                    .collect(),
            },
        ));
    }
    Some(asserts)
}

fn declarations(section: Option<&Node>) -> Vec<(String, InputDeclaration)> {
    section
        .map(Parts::entries)
        .unwrap_or(&[])
        .iter()
        .map(|e| {
            let input_type = match e.value.text("type").as_deref() {
                Some("number") => InputType::Number,
                Some("boolean") => InputType::Boolean,
                _ => InputType::String,
            };
            let declaration = InputDeclaration {
                input_type,
                required: e.value.flag("required").unwrap_or(false),
                default: e.value.text("default"),
            };
            (e.key.as_text().unwrap().to_string(), declaration)
        })
        .collect()
}

impl Repo {
    fn new() -> Repo {
        Repo { files: Vec::new() }
    }

    fn write(&mut self, path: impl Into<String>, contents: impl Into<String>) {
        self.files.push((format!("/repo/{}", path.into()), contents.into()));
    }

    fn read(&self, path: &str) -> Read<&str> {
        match self.files.iter().find(|(p, _)| p == path) {
            Some((_, contents)) => Ok(contents),
            None => Err(PlanError::new(format!("cannot read {path}"))),
        }
    }

    fn expand(
        &self,
        path: &str,
        steps_of_root: Vec<RawTestStep>,
        config: Option<Vec<Entry>>,
    ) -> Read<(Vec<TestStep>, Option<Vec<Entry>>)> {
        let mut includes = Includes::new("/repo", path, steps_of_root, config);
        loop {
            match includes.expand_test_steps() {
                IncludeAction::Continue => {}
                IncludeAction::Fail(e) => return Err(e),
                IncludeAction::Done { steps, cloud_init } => return Ok((steps, cloud_init)),
                IncludeAction::Load { path, uses, with } => {
                    let value = read_fragment_document(&path, self.read(&path)?)?;
                    let declared = declarations(extract_fragment_input_declarations(&value));
                    let filled = load_test_steps_fragment(
                        &path,
                        &uses,
                        &value,
                        document_type(&value),
                        &Ok(declared),
                        &with,
                    )?;
                    includes.accept_fragment(steps(&filled)?, cloud_init(&filled))?;
                }
            }
        }
    }

    fn load_test_with(
        &self,
        path: &str,
        mode: CloudInitSchemaMode,
        check: CloudInitSchemaCheck,
    ) -> (Read<TestConfig>, Vec<String>) {
        let path = format!("/repo/{path}");
        let prepared = || -> Read<(RawTestDocument, Option<Reference>, Vec<TestStep>, _)> {
            let value = read_test_document(&path, self.read(&path)?)?;
            let raw = RawTestDocument {
                doc_type: document_type(&value).unwrap(),
                image: value.text("image"),
                isos: value
                    .list("isos")
                    .iter()
                    .map(|i| TestIso::Attach(i.as_text().unwrap().to_string()))
                    .collect(),
                ports: value
                    .list("ports")
                    .iter()
                    .map(|p| match p {
                        Node::Number(n) => {
                            PortSpec { addr: "127.0.0.1".to_string(), port: n.parse().unwrap() }
                        }
                        _ => panic!("expected a port"),
                    })
                    .collect(),
                files: files(&value),
                diagnostics_units: value
                    .list("diagnostics_units")
                    .iter()
                    .map(|u| u.as_text().unwrap().to_string())
                    .collect(),
                step_timeout: seconds(&value, "step_timeout")?
                    .unwrap_or(default_test_step_timeout()),
                timeout: seconds(&value, "timeout")?.unwrap_or(default_test_timeout()),
                cloud_init: cloud_init(&value),
                assert_block: assertions(&value),
            };
            let image = open_test_config(&path, &raw)?;
            let (expanded, config) = self.expand(&path, steps(&value)?, cloud_init(&value))?;
            Ok((raw, image, expanded, config))
        };
        match prepared() {
            Err(e) => (Err(e), Vec::new()),
            Ok((raw, image, expanded, config)) => {
                let loaded = load_test_config(&path, raw, image, expanded, config, mode, &check);
                (loaded.config, loaded.warning.into_iter().collect())
            }
        }
    }

    fn load_build_with(
        &self,
        path: &str,
        mode: CloudInitSchemaMode,
        check: CloudInitSchemaCheck,
    ) -> (Read<BuildConfig>, Vec<String>) {
        let path = format!("/repo/{path}");
        let prepared = || -> Read<(RawBuildDocument, (Reference, String), Vec<TestStep>, _)> {
            let value = read_build_document(&path, self.read(&path)?)?;
            let raw = RawBuildDocument {
                doc_type: document_type(&value).unwrap(),
                image: value.text("image"),
                output: value.text("output"),
                disk_size: value.text("disk_size").unwrap_or(default_disk_size()),
                files: files(&value),
                step_timeout: seconds(&value, "step_timeout")?
                    .unwrap_or(default_build_step_timeout()),
                timeout: seconds(&value, "timeout")?.unwrap_or(default_build_timeout()),
                cloud_init: cloud_init(&value),
                compress: None,
            };
            let given = steps(&value)?;
            let opened = open_build_config(&path, &raw)?;
            let (expanded, config) = self.expand(&path, given, cloud_init(&value))?;
            Ok((raw, opened, expanded, config))
        };
        match prepared() {
            Err(e) => (Err(e), Vec::new()),
            Ok((raw, (image, output), expanded, config)) => {
                let loaded = load_build_config(
                    &path, raw, image, output, expanded, config, mode, &check,
                );
                (loaded.config, loaded.warning.into_iter().collect())
            }
        }
    }

    fn load_test(&self, path: &str) -> Read<TestConfig> {
        let check = CloudInitSchemaCheck::MissingBinary;
        self.load_test_with(path, CloudInitSchemaMode::Warn, check).0
    }

    fn load_build(&self, path: &str) -> Read<BuildConfig> {
        let check = CloudInitSchemaCheck::MissingBinary;
        self.load_build_with(path, CloudInitSchemaMode::Warn, check).0
    }
}

fn schema_invalid() -> CloudInitSchemaCheck {
    CloudInitSchemaCheck::Invalid("invalid cloud-config key".to_string())
}

fn run_ref(step: &TestStep) -> &RunStep {
    let TestStep::Run(step) = step else {
        panic!("expected run step");
    };
    step
}

#[test]
fn test_load_test_config_expands_uses_steps_with_inputs() {
    let mut repo = Repo::new();
    repo.write("shared/narrative.yaml", r#"
type: fragment
inputs:
  target:
    type: string
    required: true
  shell:
    type: string
    default: bash
steps:
  - on: guest
    name: "narrative-${{ inputs.target }}"
    shell: ${{ inputs.shell }}
    run: |
      echo "${USER}"
      bash /tmp/${{ inputs.target }}.sh
"#,
    );
    repo.write("test.yaml", r#"
type: test
steps:
  - uses: "@://shared/narrative.yaml"
    with:
      target: edge
      shell: bash
"#,
    );

    let config = repo.load_test("test.yaml").unwrap();

    assert_eq!(config.steps.len(), 1);
    assert_eq!(run_ref(&config.steps[0]).name, "narrative-edge");
    assert_eq!(run_ref(&config.steps[0]).shell.as_deref(), Some("bash"));
    assert!(run_ref(&config.steps[0]).run.contains(r#"echo "${USER}""#));
    assert!(run_ref(&config.steps[0]).run.contains("bash /tmp/edge.sh"));
}

#[test]
fn test_step_id_flows_through_uses_fragment() {
    let mut repo = Repo::new();
    repo.write("shared/frag.yaml", r#"
type: fragment
steps:
  - on: guest
    name: frag-step
    id: my-frag-id
    run: echo hello
"#,
    );
    repo.write("test.yaml", r#"
type: test
steps:
  - uses: "@://shared/frag.yaml"
"#,
    );

    let config = repo.load_test("test.yaml").unwrap();

    assert_eq!(config.steps.len(), 1);
    assert_eq!(run_ref(&config.steps[0]).name, "frag-step");
    assert_eq!(run_ref(&config.steps[0]).id.as_deref(), Some("my-frag-id"));
}

#[test]
fn test_load_test_config_preserves_fragment_sudo_via_uses() {
    let mut repo = Repo::new();
    repo.write("frag.yaml", r#"
type: fragment
steps:
  - on: guest
    name: frag-root-step
    sudo: true
    run: echo from-fragment
"#,
    );
    repo.write("test.yaml", r#"
type: test
steps:
  - uses: "@://frag.yaml"
"#,
    );

    let config = repo.load_test("test.yaml").unwrap();

    assert_eq!(config.steps.len(), 1);
    assert_eq!(run_ref(&config.steps[0]).name, "frag-root-step");
    assert_eq!(run_ref(&config.steps[0]).sudo, Some(true));
}

#[test]
fn test_load_test_config_rejects_unsupported_uses_scheme() {
    let mut repo = Repo::new();
    repo.write("test.yaml", r#"
type: test
steps:
  - uses: "file://shared/narrative.yaml"
"#,
    );

    let err = repo.load_test("test.yaml").unwrap_err();
    assert!(err.to_string().contains("unsupported uses scheme 'file'"));
}

#[test]
fn test_load_test_config_rejects_missing_include_input() {
    let mut repo = Repo::new();
    repo.write("shared/narrative.yaml", r#"
type: fragment
inputs:
  target:
    type: string
    required: true
steps:
  - on: guest
    name: "${{ inputs.target }}"
    run: "echo ok"
"#,
    );
    repo.write("test.yaml", r#"
type: test
steps:
  - uses: "@://shared/narrative.yaml"
"#,
    );

    let err = repo.load_test("test.yaml").unwrap_err();
    assert!(err.to_string().contains("missing required input 'target'"));
}

#[test]
fn test_load_test_config_rejects_bare_list_fragment() {
    let mut repo = Repo::new();
    repo.write("shared/narrative.yaml", r#"
- on: guest
  name: bare
  run: "echo ok"
"#,
    );
    repo.write("test.yaml", r#"
type: test
steps:
  - uses: "@://shared/narrative.yaml"
"#,
    );

    let err = repo.load_test("test.yaml").unwrap_err();
    assert!(
        err.to_string().contains("must be a mapping with a 'steps:' key"),
        "unexpected error: {err:?}"
    );
}

#[test]
fn test_load_test_config_rejects_parent_segments_in_uses_path() {
    let mut repo = Repo::new();
    repo.write("test.yaml", r#"
type: test
steps:
  - uses: "@://shared/../narrative.yaml"
"#,
    );

    let err = repo.load_test("test.yaml").unwrap_err();
    assert!(err.to_string().contains("must contain no '.' or '..' segments"));
}

#[test]
fn test_load_test_config_with_at_call_site_accepted() {
    let mut repo = Repo::new();
    repo.write("shared/frag.yaml", r#"
type: fragment
inputs:
  msg:
    type: string
    required: true
steps:
  - on: guest
    name: "${{ inputs.msg }}"
    run: "echo ok"
"#,
    );
    repo.write("test.yaml", r#"
type: test
steps:
  - uses: "@://shared/frag.yaml"
    with:
      msg: hello
"#,
    );

    let config = repo.load_test("test.yaml").unwrap();
    assert_eq!(config.steps.len(), 1);
    assert_eq!(run_ref(&config.steps[0]).name, "hello");
}

#[test]
fn test_load_test_config_declared_default_applied_via_fragment() {
    let mut repo = Repo::new();
    repo.write("shared/frag.yaml", r#"
type: fragment
inputs:
  shell:
    type: string
    default: bash
steps:
  - on: guest
    name: step
    shell: ${{ inputs.shell }}
    run: "echo ok"
"#,
    );
    repo.write("test.yaml", r#"
type: test
steps:
  - uses: "@://shared/frag.yaml"
"#,
    );

    let config = repo.load_test("test.yaml").unwrap();
    assert_eq!(run_ref(&config.steps[0]).shell.as_deref(), Some("bash"));
}

#[test]
fn test_load_test_config_undeclared_with_key_errors() {
    let mut repo = Repo::new();
    repo.write("shared/frag.yaml", r#"
type: fragment
steps:
  - on: guest
    name: step
    run: "echo ok"
"#,
    );
    repo.write("test.yaml", r#"
type: test
steps:
  - uses: "@://shared/frag.yaml"
    with:
      undeclared: value
"#,
    );

    let err = repo.load_test("test.yaml").unwrap_err();
    assert!(
        err.to_string().contains("undeclared"),
        "error must mention the undeclared key: {err:?}"
    );
}

#[test]
fn test_load_test_config_rejects_fragment_as_root() {
    let mut repo = Repo::new();
    repo.write("test.yaml", r#"
type: fragment
steps: []
"#,
    );
    let err = repo.load_test("test.yaml").unwrap_err();
    let msg = err.to_string();
    assert!(
        msg.contains("botforge test requires a 'type: test' document")
            && msg.contains("fragment"),
        "unexpected error: {msg}"
    );
}

#[test]
fn test_load_test_config_uses_requires_type_field_on_fragment() {
    let mut repo = Repo::new();
    repo.write("frag.yaml", r#"
steps:
  - on: guest
    name: step
    run: "echo ok"
"#,
    );
    repo.write("test.yaml", r#"
type: test
steps:
  - uses: "@://frag.yaml"
"#,
    );
    let err = repo.load_test("test.yaml").unwrap_err();
    let msg = err.to_string();
    assert!(
        msg.contains("missing required 'type:' field") || msg.contains("type"),
        "error must mention missing 'type:': {msg}"
    );
}

#[test]
fn test_load_test_config_uses_rejects_entrypoint_document_as_fragment() {
    let mut repo = Repo::new();
    repo.write("frag.yaml", r#"
type: test
steps:
  - on: guest
    name: step
    run: "echo ok"
"#,
    );
    repo.write("test.yaml", r#"
type: test
steps:
  - uses: "@://frag.yaml"
"#,
    );
    let err = repo.load_test("test.yaml").unwrap_err();
    let msg = err.to_string();
    assert!(
        msg.contains("not a consumable fragment") && msg.contains("test"),
        "unexpected error: {msg}"
    );
}

#[test]
fn test_fragment_with_ports_is_rejected() {
    let mut repo = Repo::new();
    repo.write("frag.yaml", r#"
type: fragment
ports:
  - 80
steps:
  - on: guest
    name: step
    run: "echo ok"
"#,
    );
    repo.write("test.yaml", r#"
type: test
steps:
  - uses: "@://frag.yaml"
"#,
    );
    let err = repo.load_test("test.yaml").unwrap_err();
    let msg = err.to_string();
    assert!(
        msg.contains("ports") && msg.contains("fragment"),
        "error must mention 'ports' and 'fragment': {msg}"
    );
}

#[test]
fn test_fragment_with_isos_is_rejected() {
    let mut repo = Repo::new();
    repo.write("frag.yaml", r#"
type: fragment
isos:
  - some/payload.iso
steps:
  - on: guest
    name: step
    run: "echo ok"
"#,
    );
    repo.write("test.yaml", r#"
type: test
steps:
  - uses: "@://frag.yaml"
"#,
    );
    let err = repo.load_test("test.yaml").unwrap_err();
    let msg = err.to_string();
    assert!(
        msg.contains("isos") && msg.contains("fragment"),
        "error must mention 'isos' and 'fragment': {msg}"
    );
}

#[test]
fn test_fragment_with_diagnostics_units_is_rejected() {
    let mut repo = Repo::new();
    repo.write("frag.yaml", r#"
type: fragment
diagnostics_units:
  - some-service.service
steps:
  - on: guest
    name: step
    run: "echo ok"
"#,
    );
    repo.write("test.yaml", r#"
type: test
steps:
  - uses: "@://frag.yaml"
"#,
    );
    let err = repo.load_test("test.yaml").unwrap_err();
    let msg = err.to_string();
    assert!(
        msg.contains("diagnostics_units") && msg.contains("fragment"),
        "error must mention 'diagnostics_units' and 'fragment': {msg}"
    );
}

#[test]
fn test_type_test_with_all_entrypoint_sections_loads() {
    let mut repo = Repo::new();
    repo.write("test.yaml", r#"
type: test
isos:
  - some/payload.iso
ports:
  - 80
diagnostics_units:
  - myservice.service
steps:
  - on: guest
    name: basic
    run: "echo ok"
"#,
    );
    let config = repo.load_test("test.yaml").unwrap();
    assert_eq!(config.isos.len(), 1);
    assert_eq!(config.ports.len(), 1);
    assert_eq!(config.diagnostics_units.len(), 1);
    assert_eq!(config.steps.len(), 1);
}

#[test]
fn test_load_test_config_cyclic_include_errors() {
    // root → frag_a → frag_b → frag_a  (cycle through two fragments)
    let mut repo = Repo::new();
    repo.write("frag_a.yaml", r#"
type: fragment
steps:
  - uses: "@://frag_b.yaml"
"#,
    );
    repo.write("frag_b.yaml", r#"
type: fragment
steps:
  - uses: "@://frag_a.yaml"
"#,
    );
    repo.write("test.yaml", r#"
type: test
steps:
  - uses: "@://frag_a.yaml"
"#,
    );
    let err = repo.load_test("test.yaml").unwrap_err();
    let msg = err.to_string();
    assert!(
        msg.contains("cyclic test step include detected"),
        "unexpected error: {msg}"
    );
}

#[test]
fn test_load_test_config_root_includes_self_cycle_errors() {
    // root → root (direct self-cycle)
    let mut repo = Repo::new();
    repo.write("test.yaml", r#"
type: test
steps:
  - uses: "@://test.yaml"
"#,
    );
    let err = repo.load_test("test.yaml").unwrap_err();
    let msg = err.to_string();
    // The root is a type: test document, so the fragment type check fires first.
    // Either "cyclic" or "not a consumable fragment" is an acceptable error here —
    // both prevent the self-include.
    assert!(
        msg.contains("cyclic") || msg.contains("not a consumable fragment"),
        "unexpected error: {msg}"
    );
}

#[test]
fn test_load_test_config_reentrant_include_succeeds_and_expands_twice() {
    // Including the same fragment from two independent steps (not a cycle).
    let mut repo = Repo::new();
    repo.write("frag.yaml", r#"
type: fragment
steps:
  - on: guest
    name: reused-step
    run: "echo ok"
"#,
    );
    repo.write("test.yaml", r#"
type: test
steps:
  - uses: "@://frag.yaml"
  - uses: "@://frag.yaml"
"#,
    );
    let config = repo.load_test("test.yaml").unwrap();
    assert_eq!(
        config.steps.len(),
        2,
        "same fragment included twice must expand to two steps"
    );
    assert_eq!(run_ref(&config.steps[0]).name, "reused-step");
    assert_eq!(run_ref(&config.steps[1]).name, "reused-step");
}

#[test]
fn test_load_test_config_max_depth_exceeded_errors() {
    // Create a chain of MAX_INCLUDE_DEPTH fragments deep, which should trigger the
    // depth-limit error.  With the root document seeded into the stack the limit is
    // MAX_INCLUDE_DEPTH total entries, meaning MAX_INCLUDE_DEPTH - 1 fragment levels
    // below the root.  We create exactly that many chain links plus one extra to
    // ensure the limit fires.
    let mut repo = Repo::new();
    let depth = MAX_INCLUDE_DEPTH; // 32
                                   // Each fragment 0..depth-2 includes the next one.
                                   // Fragment depth-1 is the one we try to include when the stack is full.
    for i in 0..(depth - 1) {
        let name = format!("frag{i:02}.yaml");
        let next = format!("frag{:02}.yaml", i + 1);
        repo.write(&name, format!("type: fragment\nsteps:\n  - uses: \"@://{next}\"\n"),
        );
    }
    // The deepest fragment (depth-1) doesn't need to exist; the depth check fires
    // before loading it.  Write it anyway as a leaf so the test is self-contained.
    repo.write(format!("frag{:02}.yaml", depth - 1), "type: fragment\nsteps: []\n",
    );
    repo.write("test.yaml", "type: test\nsteps:\n  - uses: \"@://frag00.yaml\"\n",
    );
    let err = repo.load_test("test.yaml").unwrap_err();
    let msg = err.to_string();
    assert!(
        msg.contains("depth limit") && msg.contains(&depth.to_string()),
        "error must mention the depth limit: {msg}"
    );
}

#[test]
fn test_load_build_config_minimal() {
    let mut repo = Repo::new();
    repo.write("build.yaml",
        r#"
type: build
image: "@debian-base"
output: "built.qcow2"
steps:
  - on: guest
    name: provision
    run: echo hello
"#,
    );
    let config = repo.load_build("build.yaml").unwrap();
    assert_eq!(
        config.image,
        Reference::Asset {
            name: "debian-base".to_string(),
            path: None
        }
    );
    assert_eq!(config.output, "built.qcow2");
    assert_eq!(config.disk_size, "10G");
    assert_eq!(config.step_timeout, 1800);
    assert_eq!(config.timeout, 7200);
    assert_eq!(config.cloud_init_timeout, 600);
    assert_eq!(config.steps.len(), 1);
    assert_eq!(run_ref(&config.steps[0]).name, "provision");
}

#[test]
fn test_load_build_config_overrides_defaults() {
    let mut repo = Repo::new();
    repo.write("build.yaml",
        r#"
type: build
image: "@my-base"
output: "out.qcow2"
disk_size: "20G"
step_timeout: 2400
timeout: 9600
steps: []
"#,
    );
    let config = repo.load_build("build.yaml").unwrap();
    assert_eq!(
        config.image,
        Reference::Asset {
            name: "my-base".to_string(),
            path: None
        }
    );
    assert_eq!(config.disk_size, "20G");
    assert_eq!(config.step_timeout, 2400);
    assert_eq!(config.timeout, 9600);
    assert!(config.steps.is_empty());
    assert!(
        config.cloud_init.is_none(),
        "cloud_init should default to None"
    );
}

#[test]
fn test_load_build_config_accepts_repo_traversal_image() {
    let mut repo = Repo::new();
    repo.write("build.yaml",
        "type: build\nimage: >-\n  @://build/artifact/foo.qcow2\noutput: \"out.qcow2\"\nsteps: []\n",
    );
    let config = repo.load_build("build.yaml").unwrap();
    assert_eq!(
        config.image,
        Reference::Repo {
            path: Some(String::from("build/artifact/foo.qcow2"))
        }
    );
}

#[test]
fn test_load_build_config_accepts_artifact_traversal_image() {
    let mut repo = Repo::new();
    repo.write("build.yaml",
        "type: build\nimage: \"@artifact://foo.qcow2\"\noutput: \"out.qcow2\"\nsteps: []\n",
    );
    let config = repo.load_build("build.yaml").unwrap();
    assert_eq!(
        config.image,
        Reference::Artifact {
            path: Some(String::from("foo.qcow2"))
        }
    );
}

#[test]
fn test_load_build_config_rejects_memsize_section() {
    let mut repo = Repo::new();
    repo.write("build.yaml",
        "type: build\nimage: \"@base\"\nmemsize: 8192\nsteps: []\n",
    );
    let err = repo.load_build("build.yaml").unwrap_err();
    let msg = err.to_string();
    assert!(
        msg.contains("memsize") && msg.contains("type: build"),
        "error should mention memsize and document type: {msg}"
    );
}

#[test]
fn test_load_build_config_rejects_smp_section() {
    let mut repo = Repo::new();
    repo.write("build.yaml",
        "type: build\nimage: \"@base\"\nsmp: 8\nsteps: []\n",
    );
    let err = repo.load_build("build.yaml").unwrap_err();
    let msg = err.to_string();
    assert!(
        msg.contains("smp") && msg.contains("type: build"),
        "error should mention smp and document type: {msg}"
    );
}

#[test]
fn test_load_build_config_files_absent_is_empty() {
    let mut repo = Repo::new();
    repo.write("build.yaml",
        "type: build\nimage: \"@base\"\noutput: \"out.qcow2\"\nsteps: []\n",
    );
    let config = repo.load_build("build.yaml").unwrap();
    assert!(config.files.is_empty(), "files should default to empty");
}

#[test]
fn test_load_build_config_parses_top_level_files() {
    let mut repo = Repo::new();
    repo.write("build.yaml",
        r#"
type: build
image: "@base"
output: "out.qcow2"
files:
  - src: "@://images/botspace/envoy/**/*.yaml"
    dest: /tmp/bake-staging/envoy/
  - src: "@artifact://build/images/payload/*.tar"
    dest: /usr/share/botwork/images/
steps: []
"#,
    );
    let config = repo.load_build("build.yaml").unwrap();
    assert_eq!(
        config.files,
        vec![
            FileEntry {
                src: "@://images/botspace/envoy/**/*.yaml".to_string(),
                dest: "/tmp/bake-staging/envoy/".to_string(),
                ..Default::default()
            },
            FileEntry {
                src: "@artifact://build/images/payload/*.tar".to_string(),
                dest: "/usr/share/botwork/images/".to_string(),
                ..Default::default()
            },
        ]
    );
}

#[test]
fn test_load_build_config_rejects_top_level_file_bare_path_src() {
    let mut repo = Repo::new();
    repo.write("build.yaml",
        r#"
type: build
image: "@base"
output: "out.qcow2"
files:
  - src: payload/file.txt
    dest: /tmp/payload
steps: []
"#,
    );
    let err = repo.load_build("build.yaml").unwrap_err();
    let msg = err.to_string();
    assert!(
        msg.contains("@-reference") || msg.contains("`@`-reference"),
        "error should mention @-reference: {msg}"
    );
}

#[test]
fn test_load_build_config_rejects_top_level_file_relative_dest() {
    let mut repo = Repo::new();
    repo.write("build.yaml",
        r#"
type: build
image: "@base"
output: "out.qcow2"
files:
  - src: "@://payload/file.txt"
    dest: relative/path
steps: []
"#,
    );
    let err = repo.load_build("build.yaml").unwrap_err();
    let msg = err.to_string();
    assert!(
        msg.contains("absolute"),
        "error should mention absolute dest: {msg}"
    );
}

#[test]
fn test_load_build_config_rejects_top_level_file_src_invalid_ref() {
    let mut repo = Repo::new();
    repo.write("build.yaml",
        r#"
type: build
image: "@base"
output: "out.qcow2"
files:
  - src: "@://secret/../etc/passwd"
    dest: /tmp/secret.txt
steps: []
"#,
    );
    let err = repo.load_build("build.yaml").unwrap_err();
    let msg = err.to_string();
    assert!(
        msg.contains("..") || msg.contains("invalid"),
        "error should mention traversal or invalid ref: {msg}"
    );
}

#[test]
fn test_load_build_config_rejects_top_level_file_glob_with_non_directory_dest() {
    let mut repo = Repo::new();
    repo.write("build.yaml",
        r#"
type: build
image: "@base"
output: "out.qcow2"
files:
  - src: "@artifact://payload/*.tar"
    dest: /tmp/payload.tar
steps: []
"#,
    );
    let err = repo.load_build("build.yaml").unwrap_err();
    let msg = err.to_string();
    assert!(
        msg.contains("ending with '/'"),
        "error should mention directory dest: {msg}"
    );
}

#[test]
fn test_load_build_config_parses_top_level_file_permission_fields() {
    let mut repo = Repo::new();
    repo.write("build.yaml",
        r#"
type: build
image: "@base"
output: "out.qcow2"
files:
  - src: "@payload"
    dest: /usr/local/bin/file
    mode: "0755"
    owner: root
    group: root
    overwrite: true
    parents: true
steps: []
"#,
    );
    let config = repo.load_build("build.yaml").unwrap();
    assert_eq!(config.files.len(), 1);
    let file = &config.files[0];
    assert_eq!(file.mode.as_deref(), Some("0755"));
    assert_eq!(file.owner.as_deref(), Some("root"));
    assert_eq!(file.group.as_deref(), Some("root"));
    assert_eq!(file.overwrite, Some(true));
    assert_eq!(file.parents, Some(true));
}

#[test]
fn test_load_build_config_rejects_top_level_file_invalid_mode() {
    let mut repo = Repo::new();
    repo.write("build.yaml",
        r#"
type: build
image: "@base"
output: "out.qcow2"
files:
  - src: "@payload"
    dest: /tmp/file.txt
    mode: "abc"
steps: []
"#,
    );
    let err = repo.load_build("build.yaml").unwrap_err();
    let msg = err.to_string();
    assert!(
        msg.contains("mode") && msg.contains("octal"),
        "error should mention mode and octal: {msg}"
    );
}

#[test]
fn test_load_build_config_rejects_top_level_file_owner_with_slash() {
    let mut repo = Repo::new();
    repo.write("build.yaml",
        r#"
type: build
image: "@base"
output: "out.qcow2"
files:
  - src: "@payload"
    dest: /tmp/file.txt
    owner: "root/admin"
steps: []
"#,
    );
    let err = repo.load_build("build.yaml").unwrap_err();
    let msg = err.to_string();
    assert!(
        msg.contains("owner") && msg.contains('/'),
        "error should mention owner and invalid char: {msg}"
    );
}

#[test]
fn test_load_build_config_rejects_top_level_file_group_with_metachar() {
    let mut repo = Repo::new();
    repo.write("build.yaml",
        r#"
type: build
image: "@base"
output: "out.qcow2"
files:
  - src: "@payload"
    dest: /tmp/file.txt
    group: "adm;in"
steps: []
"#,
    );
    let err = repo.load_build("build.yaml").unwrap_err();
    let msg = err.to_string();
    assert!(msg.contains("group"), "error should mention group: {msg}");
}

#[test]
fn test_load_build_config_cloud_init_absent_is_none() {
    let mut repo = Repo::new();
    repo.write("build.yaml",
        "type: build\nimage: \"@base\"\noutput: \"out.qcow2\"\nsteps: []\n",
    );
    let config = repo.load_build("build.yaml").unwrap();
    assert!(
        config.cloud_init.is_none(),
        "absent cloud_init must deserialize as None"
    );
}

#[test]
fn test_load_build_config_cloud_init_bootcmd_string_entries() {
    let mut repo = Repo::new();
    repo.write("build.yaml",
        r#"
type: build
image: "@base"
output: "out.qcow2"
steps: []
cloud_init:
  bootcmd:
    - echo hello
    - echo world
"#,
    );
    let config = repo.load_build("build.yaml").unwrap();
    let ci = config.cloud_init.expect("cloud_init must be Some");
    let bootcmd = ci
        .iter().find(|e| e.key == Node::String("bootcmd".to_string())).map(|e| &e.value)
        .expect("bootcmd must be present in cloud_init");
    let entries = bootcmd.items().expect("bootcmd must be a sequence");
    assert_eq!(entries.len(), 2);
    assert_eq!(entries[0].as_text(), Some("echo hello"));
    assert_eq!(entries[1].as_text(), Some("echo world"));
}

#[test]
fn test_load_build_config_cloud_init_bootcmd_exec_entry() {
    let mut repo = Repo::new();
    repo.write("build.yaml",
        r#"
type: build
image: "@base"
output: "out.qcow2"
steps: []
cloud_init:
  bootcmd:
    - [ cloud-init-per, once, mask-stack, sh, -c, "systemctl mask a.service" ]
"#,
    );
    let config = repo.load_build("build.yaml").unwrap();
    let ci = config.cloud_init.expect("cloud_init must be Some");
    let bootcmd = ci
        .iter().find(|e| e.key == Node::String("bootcmd".to_string())).map(|e| &e.value)
        .expect("bootcmd must be present");
    let entries = bootcmd.items().expect("bootcmd must be a sequence");
    assert_eq!(entries.len(), 1);
    let exec = entries[0]
        .items()
        .expect("first entry must be a sequence");
    assert_eq!(exec[0].as_text(), Some("cloud-init-per"));
    assert_eq!(exec[5].as_text(), Some("systemctl mask a.service"));
}

#[test]
fn test_load_build_config_top_level_bootcmd_rejected_with_migration_error() {
    // top-level bootcmd: must produce a clear migration error.
    let mut repo = Repo::new();
    repo.write("build.yaml",
        r#"
type: build
image: "@base"
output: "out.qcow2"
steps: []
bootcmd:
  - echo hello
"#,
    );
    let err = repo.load_build("build.yaml").unwrap_err();
    let msg = err.to_string();
    assert!(
        msg.contains("cloud_init"),
        "migration error must mention cloud_init: {msg}"
    );
    assert!(
        msg.contains("bootcmd"),
        "migration error must mention bootcmd: {msg}"
    );
}

#[test]
fn test_load_test_config_top_level_bootcmd_rejected_with_migration_error() {
    // top-level bootcmd: must be rejected in test docs too.
    let mut repo = Repo::new();
    repo.write("test.yaml",
        r#"
type: test
steps: []
bootcmd:
  - echo hello
"#,
    );
    let err = repo.load_test("test.yaml").unwrap_err();
    let msg = err.to_string();
    assert!(
        msg.contains("cloud_init"),
        "migration error must mention cloud_init: {msg}"
    );
}

#[test]
fn test_load_test_config_cloud_init_mounts_accepted() {
    // type: test also accepts cloud_init: (motivating tmpfs-on-test example).
    let mut repo = Repo::new();
    repo.write("test.yaml",
        r#"
type: test
steps: []
cloud_init:
  mounts:
    - [tmpfs, /var/cache/apt, tmpfs, "size=512M", "0", "0"]
"#,
    );
    let config = repo.load_test("test.yaml").unwrap();
    let ci = config.cloud_init.expect("cloud_init must be Some");
    let mounts = ci
        .iter().find(|e| e.key == Node::String("mounts".to_string())).map(|e| &e.value)
        .expect("mounts must be present")
        .items()
        .expect("mounts must be a sequence");
    assert_eq!(mounts.len(), 1);
}

#[test]
fn test_cloud_init_write_files_source_rejected_ingress_guard() {
    // write_files with source: must be rejected (ingress guard).
    let mut repo = Repo::new();
    repo.write("build.yaml",
        r#"
type: build
image: "@base"
output: "out.qcow2"
steps: []
cloud_init:
  write_files:
    - path: /etc/myapp.conf
      source: file:///etc/host.conf
"#,
    );
    let err = repo.load_build("build.yaml").unwrap_err();
    let msg = err.to_string();
    assert!(
        msg.contains("source"),
        "ingress guard error must mention source: {msg}"
    );
    assert!(
        msg.contains("write_files"),
        "ingress guard error must mention write_files: {msg}"
    );
}

#[test]
fn test_cloud_init_write_files_inline_content_allowed() {
    // write_files with content: is allowed (inline value, not host-path ingress).
    let mut repo = Repo::new();
    repo.write("build.yaml",
        r#"
type: build
image: "@base"
output: "out.qcow2"
steps: []
cloud_init:
  write_files:
    - path: /etc/myapp.conf
      content: "key=value\n"
"#,
    );
    let config = repo.load_build("build.yaml").unwrap();
    assert!(config.cloud_init.is_some(), "cloud_init must be accepted");
}

#[test]
fn test_cloud_init_ssh_pwauth_false_rejected_harness_guard() {
    // ssh_pwauth: false must be rejected (harness guard).
    let mut repo = Repo::new();
    repo.write("build.yaml",
        r#"
type: build
image: "@base"
output: "out.qcow2"
steps: []
cloud_init:
  ssh_pwauth: false
"#,
    );
    let err = repo.load_build("build.yaml").unwrap_err();
    let msg = err.to_string();
    assert!(
        msg.contains("ssh_pwauth"),
        "harness guard error must mention ssh_pwauth: {msg}"
    );
}

#[test]
fn test_cloud_init_schema_missing_binary_is_skipped() {
    let mut repo = Repo::new();
    repo.write("build.yaml",
        r#"
type: build
image: "@base"
output: "out.qcow2"
steps: []
cloud_init:
  users:
    - name: app
"#,
    );
    let (result, warnings) = repo.load_build_with("build.yaml", CloudInitSchemaMode::Warn, CloudInitSchemaCheck::MissingBinary);
    let config = result.expect("missing cloud-init binary should not fail config load");
    assert!(config.cloud_init.is_some());
    assert!(
        warnings.is_empty(),
        "missing cloud-init should be skipped without warnings: {warnings:?}"
    );
}

#[test]
fn test_cloud_init_schema_invalid_warn_mode_emits_warning() {
    let mut repo = Repo::new();
    repo.write("build.yaml",
        r#"
type: build
image: "@base"
output: "out.qcow2"
steps: []
cloud_init:
  user: typo
"#,
    );
    let (result, warnings) = repo.load_build_with("build.yaml", CloudInitSchemaMode::Warn, schema_invalid());
    assert!(
        result.is_ok(),
        "warn mode should not fail cloud-init schema violations"
    );
    assert_eq!(warnings.len(), 1, "warn mode must emit one warning");
    assert!(
        warnings[0].contains("invalid cloud-config key"),
        "warning must include validator message: {}",
        warnings[0]
    );
}

#[test]
fn test_cloud_init_schema_invalid_strict_mode_is_hard_error() {
    let mut repo = Repo::new();
    repo.write("test.yaml",
        r#"
type: test
steps: []
cloud_init:
  user: typo
"#,
    );
    let err = repo.load_test_with("test.yaml", CloudInitSchemaMode::Strict, schema_invalid()).0.unwrap_err();
    let msg = err.to_string();
    assert!(
        msg.contains("cloud-init schema pre-validation failed"),
        "strict mode must hard-fail schema violations: {msg}"
    );
}

#[test]
fn test_cloud_init_schema_valid_fragment_passes_in_all_modes() {
    for mode in [
        CloudInitSchemaMode::Off,
        CloudInitSchemaMode::Warn,
        CloudInitSchemaMode::Strict,
    ] {
        let mut repo = Repo::new();
        repo.write("test.yaml",
            r#"
type: test
steps: []
cloud_init:
  users:
    - name: app
"#,
        );
        let (result, warnings) = repo.load_test_with("test.yaml", mode, CloudInitSchemaCheck::Pass);
        assert!(
            result.is_ok(),
            "valid cloud_init should pass in mode {mode:?}"
        );
        assert!(
            warnings.is_empty(),
            "valid cloud_init should not warn in mode {mode:?}: {warnings:?}"
        );
    }
}

#[test]
fn test_cloud_init_guards_still_hard_fail_in_strict_mode() {
    let mut repo = Repo::new();
    repo.write("build.yaml",
        r#"
type: build
image: "@base"
output: "out.qcow2"
steps: []
cloud_init:
  ssh_pwauth: false
"#,
    );
    let err = repo.load_build_with("build.yaml", CloudInitSchemaMode::Strict, CloudInitSchemaCheck::Pass).0.unwrap_err();
    let msg = err.to_string();
    assert!(
        msg.contains("ssh_pwauth"),
        "harness guard must still hard-fail independent of schema mode: {msg}"
    );
}

#[test]
fn test_load_build_config_still_rejects_invalid_files_via_pipeline() {
    let mut repo = Repo::new();
    repo.write("build.yaml",
        r#"
type: build
image: "@base"
output: "out.qcow2"
steps: []
files:
  - src: "asset.txt"
    dest: relative/path
"#,
    );
    let err = repo.load_build("build.yaml").unwrap_err();
    let msg = err.to_string();
    assert!(
        msg.contains("files"),
        "invalid files must still be rejected by loader pipeline: {msg}"
    );
}

#[test]
fn test_load_test_config_still_rejects_invalid_steps_via_pipeline() {
    let mut repo = Repo::new();
    repo.write("test.yaml",
        r#"
type: test
steps:
  - on: host
    name: host-step
    run: echo hi
"#,
    );
    let err = repo.load_test("test.yaml").unwrap_err();
    let msg = err.to_string();
    assert!(
        msg.contains("ports"),
        "invalid host step without ports must be rejected by loader pipeline: {msg}"
    );
}

#[test]
fn test_load_test_config_rejects_compress_section() {
    let mut repo = Repo::new();
    repo.write("test.yaml", "type: test\ncompress:\n  enabled: true\nsteps: []\n",
    );
    let err = repo.load_test("test.yaml").unwrap_err();
    let msg = err.to_string();
    assert!(
        msg.contains("compress") && msg.contains("type: test"),
        "error should reject compress in test doc: {msg}"
    );
}

#[test]
fn test_load_fragment_rejects_compress_section() {
    let mut repo = Repo::new();
    repo.write("frag.yaml", "type: fragment\ncompress:\n  enabled: true\nsteps: []\n",
    );
    repo.write("test.yaml", "type: test\nsteps:\n  - uses: \"@://frag.yaml\"\n",
    );
    let err = repo.load_test("test.yaml").unwrap_err();
    let msg = err.to_string();
    assert!(
        msg.contains("compress"),
        "error should reject compress in fragment doc: {msg}"
    );
}

#[test]
fn test_load_fragment_rejects_files_section() {
    let mut repo = Repo::new();
    repo.write("frag.yaml", "type: fragment\nfiles:\n  - src: payload/file.txt\n    dest: /tmp/file.txt\nsteps: []\n",
    );
    repo.write("test.yaml", "type: test\nsteps:\n  - uses: \"@://frag.yaml\"\n",
    );
    let err = repo.load_test("test.yaml").unwrap_err();
    let msg = err.to_string();
    assert!(
        msg.contains("files"),
        "error should reject files in fragment doc: {msg}"
    );
}

#[test]
fn test_load_test_config_files_absent_is_empty() {
    let mut repo = Repo::new();
    repo.write("test.yaml", "type: test\nsteps: []\n");
    let config = repo.load_test("test.yaml").unwrap();
    assert!(config.files.is_empty(), "files should default to empty");
}

#[test]
fn test_load_test_config_parses_top_level_files() {
    let mut repo = Repo::new();
    repo.write("test.yaml", r#"
type: test
files:
  - src: "@://fixtures/envoy/**/*.yaml"
    dest: /tmp/envoy/
steps: []
"#,
    );
    let config = repo.load_test("test.yaml").unwrap();
    assert_eq!(
        config.files,
        vec![FileEntry {
            src: "@://fixtures/envoy/**/*.yaml".to_string(),
            dest: "/tmp/envoy/".to_string(),
            ..Default::default()
        }]
    );
}

#[test]
fn test_load_test_config_defaults_timeouts() {
    let mut repo = Repo::new();
    repo.write("test.yaml", "type: test\nsteps: []\n");
    let config = repo.load_test("test.yaml").unwrap();
    assert_eq!(config.step_timeout, 300);
    assert_eq!(config.timeout, 1800);
    assert_eq!(config.cloud_init_timeout, 300);
}

#[test]
fn test_load_test_config_overrides_timeouts() {
    let mut repo = Repo::new();
    repo.write("test.yaml", "type: test\nstep_timeout: 600\ntimeout: 2400\nsteps: []\n",
    );
    let config = repo.load_test("test.yaml").unwrap();
    assert_eq!(config.step_timeout, 600);
    assert_eq!(config.timeout, 2400);
    assert_eq!(config.cloud_init_timeout, 300);
}

#[test]
fn test_load_build_config_rejects_wrong_type() {
    let mut repo = Repo::new();
    repo.write("build.yaml", "type: test\nsteps: []\n");
    let err = repo.load_build("build.yaml").unwrap_err();
    assert!(
        err.to_string().contains("type: test"),
        "error should mention the actual type: {err:?}"
    );
}

#[test]
fn test_load_build_config_rejects_fragment_type() {
    let mut repo = Repo::new();
    repo.write("build.yaml", "type: fragment\nsteps: []\n");
    let err = repo.load_build("build.yaml").unwrap_err();
    assert!(err.to_string().contains("type: fragment"));
}

#[test]
fn test_load_build_config_rejects_ports_section() {
    let mut repo = Repo::new();
    repo.write("build.yaml",
        "type: build\nports:\n  - 80\nsteps: []\n",
    );
    let err = repo.load_build("build.yaml").unwrap_err();
    let msg = err.to_string();
    assert!(
        msg.contains("ports") && msg.contains("type: build"),
        "error should mention the offending key and document type: {msg}"
    );
}

#[test]
fn test_load_build_config_rejects_isos_section() {
    let mut repo = Repo::new();
    repo.write("build.yaml",
        "type: build\nisos:\n  - some.iso\nsteps: []\n",
    );
    let err = repo.load_build("build.yaml").unwrap_err();
    assert!(err.to_string().contains("isos"));
}

#[test]
fn test_load_build_config_rejects_diagnostics_units_section() {
    let mut repo = Repo::new();
    repo.write("build.yaml",
        "type: build\ndiagnostics_units:\n  - foo\nsteps: []\n",
    );
    let err = repo.load_build("build.yaml").unwrap_err();
    assert!(err.to_string().contains("diagnostics_units"));
}

#[test]
fn test_load_build_config_requires_image() {
    let mut repo = Repo::new();
    repo.write("build.yaml",
        "type: build\noutput: \"out.qcow2\"\nsteps: []\n",
    );
    let err = repo.load_build("build.yaml").unwrap_err();
    let msg = err.to_string();
    assert!(
        msg.contains("'image'") && msg.contains("required"),
        "error should mention missing image: {msg}"
    );
}

#[test]
fn test_load_build_config_requires_output() {
    let mut repo = Repo::new();
    repo.write("build.yaml",
        "type: build\nimage: \"@base\"\nsteps: []\n",
    );
    let err = repo.load_build("build.yaml").unwrap_err();
    let msg = err.to_string();
    assert!(
        msg.contains("'output'") && msg.contains("required"),
        "error should mention missing output: {msg}"
    );
}

#[test]
fn test_load_build_config_rejects_non_filename_output() {
    let mut repo = Repo::new();
    repo.write("build.yaml",
        "type: build\nimage: \"@base\"\noutput: \"foo/bar.qcow2\"\nsteps: []\n",
    );
    let err = repo.load_build("build.yaml").unwrap_err();
    let msg = err.to_string();
    assert!(
        msg.contains("bare filename"),
        "error should mention bare filename requirement: {msg}"
    );

    repo.write("build-dotdot.yaml",
        "type: build\nimage: \"@base\"\noutput: \"../bar.qcow2\"\nsteps: []\n",
    );
    let err =
        repo.load_build("build-dotdot.yaml").unwrap_err();
    let msg = err.to_string();
    assert!(
        msg.contains("bare filename"),
        "error should mention bare filename requirement for dotdot: {msg}"
    );
}

#[test]
fn test_load_build_config_rejects_empty_image() {
    let mut repo = Repo::new();
    repo.write("build.yaml",
        "type: build\nimage: \"\"\noutput: \"out.qcow2\"\nsteps: []\n",
    );
    let err = repo.load_build("build.yaml").unwrap_err();
    let msg = err.to_string();
    assert!(
        msg.contains("'image'") && msg.contains("required"),
        "error should mention empty image: {msg}"
    );
}

#[test]
fn test_fragment_rejects_image() {
    let mut repo = Repo::new();
    repo.write("frag.yaml", "type: fragment\nimage: \"@debian-base\"\nsteps: []\n",
    );
    repo.write("test.yaml", "type: test\nsteps:\n  - uses: \"@://frag.yaml\"\n",
    );
    let err = repo.load_test("test.yaml").unwrap_err();
    let msg = err.to_string();
    assert!(msg.contains("image"), "error should mention image: {msg}");
}

#[test]
fn test_load_test_config_accepts_image_section() {
    let mut repo = Repo::new();
    repo.write("test.yaml", "type: test\nimage: \"@artifact://foo.qcow2\"\nsteps: []\n",
    );
    let config = repo.load_test("test.yaml").unwrap();
    assert_eq!(
        config.image,
        Some(Reference::Artifact {
            path: Some(String::from("foo.qcow2"))
        })
    );
}

#[test]
fn test_load_test_config_rejects_output_section() {
    let mut repo = Repo::new();
    repo.write("test.yaml", "type: test\noutput: \"out.qcow2\"\nsteps: []\n",
    );
    let err = repo.load_test("test.yaml").unwrap_err();
    let msg = err.to_string();
    assert!(msg.contains("output"), "error should mention output: {msg}");
}

#[test]
fn test_fragment_rejects_output() {
    let mut repo = Repo::new();
    repo.write("frag.yaml", "type: fragment\noutput: \"out.qcow2\"\nsteps: []\n",
    );
    repo.write("test.yaml", "type: test\nsteps:\n  - uses: \"@://frag.yaml\"\n",
    );
    let err = repo.load_test("test.yaml").unwrap_err();
    let msg = err.to_string();
    assert!(msg.contains("output"), "error should mention output: {msg}");
}

#[test]
fn test_load_test_config_rejects_disk_size_section() {
    let mut repo = Repo::new();
    repo.write("test.yaml", "type: test\ndisk_size: \"20G\"\nsteps: []\n",
    );
    let err = repo.load_test("test.yaml").unwrap_err();
    let msg = err.to_string();
    assert!(
        msg.contains("disk_size") && msg.contains("type: test"),
        "error should mention the offending key and document type: {msg}"
    );
}

#[test]
fn test_load_test_config_rejects_memsize_section() {
    let mut repo = Repo::new();
    repo.write("test.yaml", "type: test\nmemsize: 8192\nsteps: []\n",
    );
    let err = repo.load_test("test.yaml").unwrap_err();
    assert!(err.to_string().contains("memsize"));
}

#[test]
fn test_load_test_config_rejects_smp_section() {
    let mut repo = Repo::new();
    repo.write("test.yaml", "type: test\nsmp: 8\nsteps: []\n",
    );
    let err = repo.load_test("test.yaml").unwrap_err();
    assert!(err.to_string().contains("smp"));
}

#[test]
fn test_fragment_rejects_disk_size() {
    let mut repo = Repo::new();
    repo.write("frag.yaml", "type: fragment\ndisk_size: \"20G\"\nsteps: []\n",
    );
    repo.write("test.yaml", "type: test\nsteps:\n  - uses: \"@://frag.yaml\"\n",
    );
    let err = repo.load_test("test.yaml").unwrap_err();
    assert!(err.to_string().contains("disk_size"));
}

#[test]
fn test_fragment_rejects_memsize() {
    let mut repo = Repo::new();
    repo.write("frag.yaml", "type: fragment\nmemsize: 8192\nsteps: []\n",
    );
    repo.write("test.yaml", "type: test\nsteps:\n  - uses: \"@://frag.yaml\"\n",
    );
    let err = repo.load_test("test.yaml").unwrap_err();
    assert!(err.to_string().contains("memsize"));
}

#[test]
fn test_fragment_rejects_smp() {
    let mut repo = Repo::new();
    repo.write("frag.yaml", "type: fragment\nsmp: 8\nsteps: []\n",
    );
    repo.write("test.yaml", "type: test\nsteps:\n  - uses: \"@://frag.yaml\"\n",
    );
    let err = repo.load_test("test.yaml").unwrap_err();
    assert!(err.to_string().contains("smp"));
}

#[test]
fn test_fragment_rejects_step_timeout() {
    let mut repo = Repo::new();
    repo.write("frag.yaml", "type: fragment\nstep_timeout: 600\nsteps: []\n",
    );
    repo.write("test.yaml", "type: test\nsteps:\n  - uses: \"@://frag.yaml\"\n",
    );
    let err = repo.load_test("test.yaml").unwrap_err();
    assert!(err.to_string().contains("step_timeout"));
}

#[test]
fn test_fragment_rejects_timeout() {
    let mut repo = Repo::new();
    repo.write("frag.yaml", "type: fragment\ntimeout: 600\nsteps: []\n",
    );
    repo.write("test.yaml", "type: test\nsteps:\n  - uses: \"@://frag.yaml\"\n",
    );
    let err = repo.load_test("test.yaml").unwrap_err();
    assert!(err.to_string().contains("timeout"));
}

#[test]
fn test_build_config_accepts_fragment_via_uses() {
    let mut repo = Repo::new();
    repo.write("frag.yaml", r#"
type: fragment
steps:
  - on: guest
    name: frag-step
    timeout: 42
    run: echo from-fragment
"#,
    );
    repo.write("build.yaml",
        r#"
type: build
image: "@debian-base"
output: "out.qcow2"
steps:
  - uses: "@://frag.yaml"
"#,
    );
    let config = repo.load_build("build.yaml").unwrap();
    assert_eq!(config.steps.len(), 1);
    assert_eq!(run_ref(&config.steps[0]).name, "frag-step");
    assert_eq!(run_ref(&config.steps[0]).timeout, Some(42));
}

#[test]
fn test_build_config_preserves_fragment_sudo_via_uses() {
    let mut repo = Repo::new();
    repo.write("frag.yaml", r#"
type: fragment
steps:
  - on: guest
    name: frag-step
    sudo: true
    run: echo from-fragment
"#,
    );
    repo.write("build.yaml",
        r#"
type: build
image: "@debian-base"
output: "out.qcow2"
steps:
  - uses: "@://frag.yaml"
"#,
    );
    let config = repo.load_build("build.yaml").unwrap();
    assert_eq!(config.steps.len(), 1);
    assert_eq!(run_ref(&config.steps[0]).name, "frag-step");
    assert_eq!(run_ref(&config.steps[0]).sudo, Some(true));
}

#[test]
fn test_build_config_fragment_input_substitution_preserves_step_timeout() {
    let mut repo = Repo::new();
    repo.write("frag.yaml", r#"
type: fragment
inputs:
  seconds:
    type: number
    required: true
steps:
  - on: guest
    name: frag-step
    timeout: ${{ inputs.seconds }}
    run: echo from-fragment
"#,
    );
    repo.write("build.yaml",
        r#"
type: build
image: "@debian-base"
output: "out.qcow2"
steps:
  - uses: "@://frag.yaml"
    with:
      seconds: "75"
"#,
    );
    let config = repo.load_build("build.yaml").unwrap();
    assert_eq!(run_ref(&config.steps[0]).timeout, Some(75));
}

#[test]
fn test_load_test_config_rejects_non_positive_document_timeouts() {
    let mut repo = Repo::new();
    for (name, content, needle) in [
        (
            "test-zero-step-timeout.yaml",
            "type: test\nstep_timeout: 0\nsteps: []\n",
            "positive integer",
        ),
        (
            "test-negative-timeout.yaml",
            "type: test\ntimeout: -1\nsteps: []\n",
            "positive integer",
        ),
    ] {
        repo.write(name, content);
        let err = repo.load_test(name).unwrap_err();
        assert!(
            err.to_string().contains(needle),
            "error should mention invalid timeout value: {err:?}"
        );
    }
}

#[test]
fn test_load_build_config_rejects_non_positive_timeouts() {
    let mut repo = Repo::new();
    for (name, content, needle) in [
        (
            "build-zero-step-timeout.yaml",
            "type: build\nstep_timeout: 0\nsteps: []\n",
            "positive integer",
        ),
        (
            "build-negative-step-timeout.yaml",
            "type: build\nsteps:\n  - on: host\n    name: slow\n    timeout: -5\n    run: echo ok\n",
            "positive integer",
        ),
    ] {
        repo.write(name, content);
        let err = repo.load_build(name).unwrap_err();
        assert!(
            err.to_string().contains(needle),
            "error should mention invalid timeout value: {err:?}"
        );
    }
}

#[test]
fn test_build_config_cannot_be_used_as_fragment() {
    let mut repo = Repo::new();
    repo.write("build-base.yaml",
        "type: build\nsteps:\n  - on: guest\n    name: s\n    run: echo ok\n",
    );
    repo.write("test.yaml", "type: test\nsteps:\n  - uses: \"@://build-base.yaml\"\n",
    );
    let err = repo.load_test("test.yaml").unwrap_err();
    let msg = err.to_string();
    assert!(
        msg.contains("not a consumable fragment"),
        "error should reject build doc as fragment: {msg}"
    );
}

#[test]
fn test_load_test_config_assert_absent_is_none() {
    let mut repo = Repo::new();
    repo.write("test.yaml", "type: test\nsteps: []\n");
    let config = repo.load_test("test.yaml").unwrap();
    assert!(config.assert_block.is_none(), "assert should default to None");
}

#[test]
fn test_load_test_config_assert_files_rejects_exists_false_with_attributes() {
    let mut repo = Repo::new();
    repo.write("test.yaml", r#"
type: test
steps: []
assert:
  files:
    /some/path:
      exists: false
      mode: "0755"
"#,
    );
    let err = repo.load_test("test.yaml").unwrap_err();
    let msg = err.to_string();
    assert!(
        msg.contains("exists: false") || msg.contains("attribute"),
        "error should mention exists:false and attributes: {msg}"
    );
}

#[test]
fn test_load_test_config_assert_files_rejects_relative_path() {
    let mut repo = Repo::new();
    repo.write("test.yaml", r#"
type: test
steps: []
assert:
  files:
    relative/path:
      exists: true
"#,
    );
    let err = repo.load_test("test.yaml").unwrap_err();
    let msg = err.to_string();
    assert!(
        msg.contains("absolute"),
        "error should mention absolute path: {msg}"
    );
}

#[test]
fn test_load_test_config_assert_files_rejects_invalid_mode() {
    let mut repo = Repo::new();
    repo.write("test.yaml", r#"
type: test
steps: []
assert:
  files:
    /some/path:
      exists: true
      mode: "rwxr-xr-x"
"#,
    );
    let err = repo.load_test("test.yaml").unwrap_err();
    let msg = err.to_string();
    assert!(
        msg.contains("mode") || msg.contains("octal"),
        "error should mention mode: {msg}"
    );
}

#[test]
fn test_load_test_config_assert_users_rejects_attrs_with_exists_false() {
    let mut repo = Repo::new();
    repo.write("test.yaml", r#"
type: test
steps: []
assert:
  users:
    mallory:
      exists: false
      shell: /bin/bash
"#,
    );
    let err = repo.load_test("test.yaml").unwrap_err();
    let msg = err.to_string();
    assert!(
        msg.contains("shell") || msg.contains("exists: false"),
        "error should mention shell/exists: {msg}"
    );
}

fn bare_test() -> RawTestDocument {
    RawTestDocument {
        doc_type: DocumentType::Test,
        image: None,
        isos: Vec::new(),
        ports: Vec::new(),
        files: Vec::new(),
        diagnostics_units: Vec::new(),
        step_timeout: default_test_step_timeout(),
        timeout: default_test_timeout(),
        cloud_init: None,
        assert_block: None,
    }
}

fn bare_build() -> RawBuildDocument {
    RawBuildDocument {
        doc_type: DocumentType::Build,
        image: None,
        output: None,
        disk_size: default_disk_size(),
        files: Vec::new(),
        step_timeout: default_build_step_timeout(),
        timeout: default_build_timeout(),
        cloud_init: None,
        compress: None,
    }
}

/// A cloud-config that is refused whatever its schema says.
fn guarded() -> Option<Vec<Entry>> {
    let key = Node::String("ssh_pwauth".to_string());
    Some(vec![Entry { key, value: Node::Bool(false) }])
}

/// A file that is refused: its place in the guest is not absolute.
fn misplaced() -> Vec<FileEntry> {
    vec![FileEntry {
        src: "@://f".to_string(),
        dest: "etc/f".to_string(),
        mode: None,
        owner: None,
        group: None,
        overwrite: None,
        parents: None,
    }]
}

#[test]
fn a_schema_is_checked_when_nothing_before_it_refuses_the_plan() {
    assert!(test_schema_check_due("t.yaml", &bare_test()));
    assert!(!test_schema_check_due(
        "t.yaml",
        &RawTestDocument { files: misplaced(), ..bare_test() }
    ));
    assert!(!test_schema_check_due(
        "t.yaml",
        &RawTestDocument { cloud_init: guarded(), ..bare_test() }
    ));

    assert!(build_schema_check_due("b.yaml", &bare_build(), "disk.qcow2"));
    assert!(!build_schema_check_due("b.yaml", &bare_build(), "../disk.qcow2"));
    assert!(!build_schema_check_due(
        "b.yaml",
        &RawBuildDocument { files: misplaced(), ..bare_build() },
        "disk.qcow2"
    ));
    assert!(!build_schema_check_due(
        "b.yaml",
        &RawBuildDocument { cloud_init: guarded(), ..bare_build() },
        "disk.qcow2"
    ));
}

#[test]
fn a_check_that_is_not_due_does_not_matter() {
    let refused = |mode: CloudInitSchemaMode, check: CloudInitSchemaCheck| {
        let raw = RawTestDocument { cloud_init: guarded(), ..bare_test() };
        let loaded = load_test_config("t.yaml", raw, None, Vec::new(), None, mode, &check);
        assert_eq!(loaded.warning, None);
        loaded.config.err().unwrap().to_string()
    };
    let error = refused(CloudInitSchemaMode::Strict, CloudInitSchemaCheck::Pass);
    assert!(error.starts_with("cloud_init.ssh_pwauth: false is not allowed in t.yaml"), "{error}");
    assert_eq!(refused(CloudInitSchemaMode::Strict, schema_invalid()), error);
    assert_eq!(refused(CloudInitSchemaMode::Warn, schema_invalid()), error);
}

#[test]
fn declarations_that_cannot_be_read_are_told() {
    let fragment = parse_yaml("type: fragment\ninputs: {a: {type: blob}}\nsteps: []\n").unwrap();
    let unread = Err(PlanError::text("unknown variant"));
    let refused = load_test_steps_fragment(
        "/r/f.yaml",
        "@://f.yaml",
        &fragment,
        Some(DocumentType::Fragment),
        &unread,
        &Vec::new(),
    );
    assert_eq!(
        refused.unwrap_err().to_string(),
        "invalid test step include: /r/f.yaml: invalid inputs: declaration: unknown variant"
    );
}
