//! Loading a plan: from the document that was read to the configuration that is run.

use vstd::prelude::*;
use vstd::string::*;

use crate::cloud_init::{
    CloudInitSchemaCheck, CloudInitSchemaMode, SchemaVerdict, cloud_init_error, schema_error,
    schema_warning, validate_cloud_init_fragment, validate_cloud_init_schema_fragment,
};
use crate::document::{
    AssertBlock, DocumentType, default_build_cloud_init_timeout, default_test_cloud_init_timeout,
};
use crate::error::{PlanError, in_context, outcome};
use crate::includes::config_view;
use crate::reference::{Reference, ReferenceView, parse_config_image, reference_of};
use crate::step::TestStep;
use crate::step_rules::{
    PlanKind, output_error, some_on_host, steps_error, test_steps_error,
    validate_build_output_filename, validate_build_steps, validate_test_steps,
};
use crate::strings::{cat3, cat4, is_blank};
use crate::text::{opt_text, trim};
use crate::validate::{
    FileEntry, PortSpec, assert_block_error, files_error, first_error, validate_assert_block,
    validate_top_level_files,
};
use crate::value::{Entry, EntryView, entry_views};

verus! {

/// An image that a test attaches to its guest.
#[derive(Debug, PartialEq, Eq)]
pub enum TestIso {
    /// Attach it.
    Attach(String),
    /// Attach and mount it, and run a script on it.
    Bootstrap { path: String, label: String, mount: String, bootstrap: String },
}

/// How freed blocks are reclaimed before a disk is kept.
#[derive(Clone, Copy, Debug, PartialEq, Eq, Structural)]
pub enum ReclaimMode {
    /// They are not.
    NoReclaim,
    /// In the guest, as its last action.
    Fstrim,
    /// On the host, after the guest has stopped.
    Discard,
}

impl Default for ReclaimMode {
    fn default() -> (r: ReclaimMode)
        ensures
            r == ReclaimMode::NoReclaim,
    {
        ReclaimMode::NoReclaim
    }
}

/// How a disk is compressed.
#[derive(Clone, Copy, Debug, PartialEq, Eq, Structural)]
pub enum CompressionType {
    Zstd,
    Zlib,
}

impl Default for CompressionType {
    fn default() -> (r: CompressionType)
        ensures
            r == CompressionType::Zstd,
    {
        CompressionType::Zstd
    }
}

/// Whether and how the disk of a build is compressed.
#[derive(Debug, PartialEq, Eq)]
pub struct CompressConfig {
    pub enabled: bool,
    pub compressor: CompressionType,
    pub compressor_args: Vec<(String, String)>,
    pub compressor_opts: String,
    pub reclaim: ReclaimMode,
}

/// The document of a test.
#[derive(Debug)]
pub struct RawTestDocument {
    pub doc_type: DocumentType,
    pub image: Option<String>,
    pub isos: Vec<TestIso>,
    pub ports: Vec<PortSpec>,
    pub files: Vec<FileEntry>,
    pub diagnostics_units: Vec<String>,
    pub step_timeout: u64,
    pub timeout: u64,
    /// The cloud-config of the document itself.
    pub cloud_init: Option<Vec<Entry>>,
    pub assert_block: Option<AssertBlock>,
}

/// A test that can be run.
#[derive(Debug)]
pub struct TestConfig {
    pub image: Option<Reference>,
    pub isos: Vec<TestIso>,
    pub ports: Vec<PortSpec>,
    pub steps: Vec<TestStep>,
    pub files: Vec<FileEntry>,
    pub diagnostics_units: Vec<String>,
    pub step_timeout: u64,
    pub timeout: u64,
    pub cloud_init_timeout: u64,
    /// The cloud-config of the document and of the fragments it uses.
    pub cloud_init: Option<Vec<Entry>>,
    pub assert_block: Option<AssertBlock>,
}

/// The document of a build.
#[derive(Debug)]
pub struct RawBuildDocument {
    pub doc_type: DocumentType,
    pub image: Option<String>,
    pub output: Option<String>,
    pub disk_size: String,
    pub files: Vec<FileEntry>,
    pub step_timeout: u64,
    pub timeout: u64,
    /// The cloud-config of the document itself.
    pub cloud_init: Option<Vec<Entry>>,
    pub compress: Option<CompressConfig>,
}

/// A build that can be run.
#[derive(Debug)]
pub struct BuildConfig {
    pub image: Reference,
    pub output: String,
    pub disk_size: String,
    pub steps: Vec<TestStep>,
    pub files: Vec<FileEntry>,
    pub step_timeout: u64,
    pub timeout: u64,
    pub cloud_init_timeout: u64,
    /// The cloud-config of the document and of the fragments it uses.
    pub cloud_init: Option<Vec<Entry>>,
    pub compress: Option<CompressConfig>,
}

/// A plan that was loaded, or why it was refused, with a warning to show.
#[derive(Debug)]
pub struct Loaded<T> {
    pub warning: Option<String>,
    pub config: Result<T, PlanError>,
}

// ---------------------------------------------------------------------------
// What a document starts from
// ---------------------------------------------------------------------------

/// The image that a test starts from, or why its document is refused.
pub open spec fn test_image(
    path: Seq<char>,
    doc_type: DocumentType,
    image: Option<Seq<char>>,
) -> Result<Option<ReferenceView>, Seq<char>> {
    if doc_type != DocumentType::Test {
        Err("botforge test requires a 'type: test' document, got 'type: "@ + doc_type.word() + "'"@)
    } else {
        match image {
            None => Ok(None),
            Some(raw) => if trim(raw).len() == 0 {
                Err("'image' in a 'type: test' document ("@ + path + ") must not be blank"@)
            } else {
                match reference_of(raw) {
                    Ok(r) => Ok(Some(r)),
                    Err(e) => Err(
                        in_context("invalid 'image' value in test config ("@ + path + ")"@, e),
                    ),
                }
            },
        }
    }
}

/// Accepts the kind of a test's document and reads its image, if it names one.
pub fn open_test_config(path: &str, raw: &RawTestDocument) -> (r: Result<
    Option<Reference>,
    PlanError,
>)
    ensures
        match r {
            Ok(image) => test_image(path@, raw.doc_type, opt_text(raw.image)) == Ok::<
                Option<ReferenceView>,
                Seq<char>,
            >(
                match image {
                    Some(reference) => Some(reference@),
                    None => None,
                },
            ),
            Err(e) => test_image(path@, raw.doc_type, opt_text(raw.image)) == Err::<
                Option<ReferenceView>,
                Seq<char>,
            >(e@),
        },
{
    if !raw.doc_type.is_test_entrypoint() {
        return Err(
            PlanError::new(
                cat3(
                    "botforge test requires a 'type: test' document, got 'type: ",
                    raw.doc_type.as_str(),
                    "'",
                ),
            ),
        );
    }
    match &raw.image {
        None => Ok(None),
        Some(image) => {
            if is_blank(image.as_str()) {
                return Err(
                    PlanError::new(
                        cat3("'image' in a 'type: test' document (", path, ") must not be blank"),
                    ),
                );
            }
            match parse_config_image(image.as_str()) {
                Ok(reference) => Ok(Some(reference)),
                Err(e) => {
                    let context = cat3("invalid 'image' value in test config (", path, ")");
                    Err(e.within(context.as_str()))
                },
            }
        },
    }
}

/// Why a build without an image is refused.
pub open spec fn image_required(path: Seq<char>) -> Seq<char> {
    "'image' is required in a 'type: build' document ("@ + path
        + "): set it to an `@…` reference, e.g. `image: \"@debian-base\"`"@
}

/// Why a build without an output is refused.
pub open spec fn output_required(path: Seq<char>) -> Seq<char> {
    "'output' is required in a 'type: build' document ("@ + path
        + "): set it to a bare artifact filename, e.g. `output: \"image.qcow2\"`"@
}

/// The image that a build starts from and the name of its output, or why its document
/// is refused.
pub open spec fn build_image(
    path: Seq<char>,
    doc_type: DocumentType,
    image: Option<Seq<char>>,
    output: Option<Seq<char>>,
) -> Result<(ReferenceView, Seq<char>), Seq<char>> {
    if doc_type != DocumentType::Build {
        Err(
            "botforge build requires a 'type: build' document, got 'type: "@ + doc_type.word()
                + "'"@,
        )
    } else {
        match image {
            Some(raw) if trim(raw).len() > 0 => match reference_of(raw) {
                Err(e) => Err(
                    in_context("invalid 'image' value in build config ("@ + path + ")"@, e),
                ),
                Ok(reference) => match output {
                    Some(name) if trim(name).len() > 0 => Ok((reference, name)),
                    _ => Err(output_required(path)),
                },
            },
            _ => Err(image_required(path)),
        }
    }
}

fn refuse_image(path: &str) -> (e: PlanError)
    ensures
        e@ == image_required(path@),
{
    PlanError::new(
        cat3(
            "'image' is required in a 'type: build' document (",
            path,
            "): set it to an `@…` reference, e.g. `image: \"@debian-base\"`",
        ),
    )
}

fn refuse_output(path: &str) -> (e: PlanError)
    ensures
        e@ == output_required(path@),
{
    PlanError::new(
        cat3(
            "'output' is required in a 'type: build' document (",
            path,
            "): set it to a bare artifact filename, e.g. `output: \"image.qcow2\"`",
        ),
    )
}

/// Accepts the kind of a build's document and reads its image and output, both of
/// which it must name.
pub fn open_build_config(path: &str, raw: &RawBuildDocument) -> (r: Result<
    (Reference, String),
    PlanError,
>)
    ensures
        match r {
            Ok(p) => build_image(
                path@,
                raw.doc_type,
                opt_text(raw.image),
                opt_text(raw.output),
            ) == Ok::<(ReferenceView, Seq<char>), Seq<char>>((p.0@, p.1@)),
            Err(e) => build_image(
                path@,
                raw.doc_type,
                opt_text(raw.image),
                opt_text(raw.output),
            ) == Err::<(ReferenceView, Seq<char>), Seq<char>>(e@),
        },
{
    if !raw.doc_type.is_build_entrypoint() {
        return Err(
            PlanError::new(
                cat3(
                    "botforge build requires a 'type: build' document, got 'type: ",
                    raw.doc_type.as_str(),
                    "'",
                ),
            ),
        );
    }
    let reference = match &raw.image {
        None => {
            return Err(refuse_image(path));
        },
        Some(image) => {
            if is_blank(image.as_str()) {
                return Err(refuse_image(path));
            }
            match parse_config_image(image.as_str()) {
                Ok(reference) => reference,
                Err(e) => {
                    let context = cat3("invalid 'image' value in build config (", path, ")");
                    return Err(e.within(context.as_str()));
                },
            }
        },
    };
    match &raw.output {
        None => Err(refuse_output(path)),
        Some(output) => if is_blank(output.as_str()) {
            Err(refuse_output(path))
        } else {
            Ok((reference, output.clone()))
        },
    }
}

// ---------------------------------------------------------------------------
// Validation
// ---------------------------------------------------------------------------

/// What is validated when a plan has been put together.
#[derive(Debug)]
pub enum SemanticValidationTarget<'a> {
    Build {
        path: &'a str,
        output: &'a str,
        root_cloud_init: Option<&'a Vec<Entry>>,
        steps: &'a [TestStep],
        files: &'a Vec<FileEntry>,
    },
    Test {
        path: &'a str,
        root_cloud_init: Option<&'a Vec<Entry>>,
        steps: &'a [TestStep],
        ports: &'a [PortSpec],
        files: &'a Vec<FileEntry>,
    },
}

/// The model of a [`SemanticValidationTarget`].
pub enum TargetView {
    Build {
        path: Seq<char>,
        output: Seq<char>,
        root: Option<Seq<EntryView>>,
        steps: Seq<TestStep>,
        files: Seq<FileEntry>,
    },
    Test {
        path: Seq<char>,
        root: Option<Seq<EntryView>>,
        steps: Seq<TestStep>,
        ports: Seq<PortSpec>,
        files: Seq<FileEntry>,
    },
}

/// An error in the context of a plan's file.
pub open spec fn config_error(
    kind: PlanKind,
    path: Seq<char>,
    error: Option<Seq<char>>,
) -> Option<Seq<char>> {
    match error {
        Some(e) => Some(in_context("invalid "@ + kind.word() + " config: "@ + path, e)),
        None => None,
    }
}

/// The contents of an optional reference to a cloud-config.
pub open spec fn root_view(c: Option<&Vec<Entry>>) -> Option<Seq<EntryView>> {
    match c {
        Some(entries) => Some(entry_views(entries@)),
        None => None,
    }
}

impl<'a> View for SemanticValidationTarget<'a> {
    type V = TargetView;

    open spec fn view(&self) -> TargetView {
        match self {
            SemanticValidationTarget::Build { path, output, root_cloud_init, steps, files } => {
                TargetView::Build {
                    path: path@,
                    output: output@,
                    root: root_view(*root_cloud_init),
                    steps: steps@,
                    files: files@,
                }
            },
            SemanticValidationTarget::Test { path, root_cloud_init, steps, ports, files } => {
                TargetView::Test {
                    path: path@,
                    root: root_view(*root_cloud_init),
                    steps: steps@,
                    ports: ports@,
                    files: files@,
                }
            },
        }
    }
}

/// Why the cloud-config of a document is refused before its schema is looked at.
pub open spec fn root_config_error(root: Option<Seq<EntryView>>, path: Seq<char>) -> Option<
    Seq<char>,
> {
    match root {
        Some(c) => cloud_init_error(c, path),
        None => None,
    }
}

/// Why the schema of a document's cloud-config refuses it.
pub open spec fn root_schema_error(
    root: Option<Seq<EntryView>>,
    mode: CloudInitSchemaMode,
    path: Seq<char>,
    check: CloudInitSchemaCheck,
) -> Option<Seq<char>> {
    match root {
        Some(_) => schema_error(mode, path, check),
        None => None,
    }
}

/// Why the output of a build is refused.
pub open spec fn output_config_error(path: Seq<char>, output: Seq<char>) -> Option<Seq<char>> {
    match output_error(output) {
        Some(e) => Some(in_context("invalid 'output' value in build config ("@ + path + ")"@, e)),
        None => None,
    }
}

/// Why a plan is refused before the schema of its cloud-config is looked at.
pub open spec fn early_error(target: TargetView) -> Option<Seq<char>> {
    match target {
        TargetView::Build { path, output, root, .. } => first_error(
            output_config_error(path, output),
            root_config_error(root, path),
        ),
        TargetView::Test { path, root, .. } => root_config_error(root, path),
    }
}

/// The cloud-config of a document, and its path.
pub open spec fn root_of(target: TargetView) -> (Option<Seq<EntryView>>, Seq<char>) {
    match target {
        TargetView::Build { path, root, .. } => (root, path),
        TargetView::Test { path, root, .. } => (root, path),
    }
}

/// Why a plan is refused after the schema of its cloud-config was looked at.
pub open spec fn late_error(target: TargetView) -> Option<Seq<char>> {
    match target {
        TargetView::Build { path, steps, files, .. } => first_error(
            config_error(PlanKind::Build, path, files_error("build"@, files, files.len())),
            steps_error(PlanKind::Build, steps, steps.len()),
        ),
        TargetView::Test { path, steps, ports, files, .. } => first_error(
            config_error(PlanKind::Test, path, files_error("test"@, files, files.len())),
            test_steps_error(steps, ports),
        ),
    }
}

/// Why a plan is refused.
pub open spec fn semantic_error(
    target: TargetView,
    mode: CloudInitSchemaMode,
    check: CloudInitSchemaCheck,
) -> Option<Seq<char>> {
    let (root, path) = root_of(target);
    first_error(
        first_error(early_error(target), root_schema_error(root, mode, path, check)),
        late_error(target),
    )
}

/// The warning that validating a plan gives.
pub open spec fn semantic_warning(
    target: TargetView,
    mode: CloudInitSchemaMode,
    check: CloudInitSchemaCheck,
) -> Option<Seq<char>> {
    let (root, path) = root_of(target);
    if early_error(target) is None && root is Some {
        schema_warning(mode, path, check)
    } else {
        None
    }
}

fn check_files(kind: PlanKind, path: &str, files: &Vec<FileEntry>) -> (r: Result<(), PlanError>)
    ensures
        outcome(
            r,
            config_error(kind, path@, files_error(kind.word(), files@, files@.len())),
        ),
{
    match validate_top_level_files(kind.as_str(), files) {
        Ok(()) => Ok(()),
        Err(e) => {
            let context = cat4("invalid ", kind.as_str(), " config: ", path);
            Err(e.within(context.as_str()))
        },
    }
}

/// Validates a plan that has been put together. `check` is what checking the
/// document's own cloud-config against its schema gave; it does not matter if the
/// document has none or the mode is off.
pub fn run_semantic_validators(
    target: SemanticValidationTarget<'_>,
    mode: CloudInitSchemaMode,
    check: &CloudInitSchemaCheck,
) -> (r: SchemaVerdict)
    ensures
        outcome(r.outcome, semantic_error(target@, mode, *check)),
        opt_text(r.warning) == semantic_warning(target@, mode, *check),
{
    let (root, path): (Option<&Vec<Entry>>, &str) = match &target {
        SemanticValidationTarget::Build { path, output, root_cloud_init, .. } => {
            match validate_build_output_filename(output) {
                Ok(_) => {},
                Err(e) => {
                    let context = cat3("invalid 'output' value in build config (", path, ")");
                    return SchemaVerdict {
                        warning: None,
                        outcome: Err(e.within(context.as_str())),
                    };
                },
            }
            (*root_cloud_init, *path)
        },
        SemanticValidationTarget::Test { path, root_cloud_init, .. } => (*root_cloud_init, *path),
    };
    let mut warning: Option<String> = None;
    if let Some(config) = root {
        match validate_cloud_init_fragment(config, path) {
            Ok(()) => {},
            Err(e) => {
                return SchemaVerdict { warning: None, outcome: Err(e) };
            },
        }
        let verdict = validate_cloud_init_schema_fragment(mode, path, check);
        if verdict.outcome.is_err() {
            return verdict;
        }
        warning = verdict.warning;
    }
    let late = match target {
        SemanticValidationTarget::Build { path, steps, files, .. } => match check_files(
            PlanKind::Build,
            path,
            files,
        ) {
            Ok(()) => validate_build_steps(steps),
            Err(e) => Err(e),
        },
        SemanticValidationTarget::Test { path, steps, ports, files, .. } => match check_files(
            PlanKind::Test,
            path,
            files,
        ) {
            Ok(()) => validate_test_steps(steps, ports),
            Err(e) => Err(e),
        },
    };
    SchemaVerdict { warning, outcome: late }
}

/// Why the assertions of a test are refused.
pub open spec fn assertions_error(block: Option<AssertBlock>) -> Option<Seq<char>> {
    match block {
        Some(b) => assert_block_error(b),
        None => None,
    }
}

/// Why the files and assertions of a test are refused.
pub open spec fn test_parts_error(path: Seq<char>, raw: RawTestDocument) -> Option<Seq<char>> {
    first_error(
        config_error(
            PlanKind::Test,
            path,
            files_error("test"@, raw.files@, raw.files@.len()),
        ),
        config_error(PlanKind::Test, path, assertions_error(raw.assert_block)),
    )
}

/// What a test is validated as.
pub open spec fn test_target(
    path: Seq<char>,
    raw: RawTestDocument,
    steps: Seq<TestStep>,
) -> TargetView {
    TargetView::Test {
        path,
        root: config_view(raw.cloud_init),
        steps,
        ports: raw.ports@,
        files: raw.files@,
    }
}

fn as_root(c: &Option<Vec<Entry>>) -> (r: Option<&Vec<Entry>>)
    ensures
        root_view(r) == config_view(*c),
{
    match c {
        Some(entries) => Some(entries),
        None => None,
    }
}

fn check_root(root: &Option<Vec<Entry>>, path: &str) -> (r: bool)
    ensures
        r == (root_config_error(config_view(*root), path@) is None),
{
    match root {
        Some(config) => validate_cloud_init_fragment(config, path).is_ok(),
        None => true,
    }
}

/// Whether the cloud-config of a test is to be checked against its schema: nothing that comes
/// before the schema refuses the test.
pub fn test_schema_check_due(path: &str, raw: &RawTestDocument) -> (r: bool)
    ensures
        r == (test_parts_error(path@, *raw) is None && early_error(
            test_target(path@, *raw, seq![]),
        ) is None),
{
    let asserts = match &raw.assert_block {
        Some(block) => validate_assert_block(block).is_ok(),
        None => true,
    };
    validate_top_level_files("test", &raw.files).is_ok() && asserts && check_root(
        &raw.cloud_init,
        path,
    )
}

/// What a check against the schema gives does not matter where it is not due: a test that is
/// refused before is refused with the same error, and nothing is said of the schema.
pub proof fn test_checks_matter_only_when_due(
    path: Seq<char>,
    raw: RawTestDocument,
    steps: Seq<TestStep>,
    mode: CloudInitSchemaMode,
    check: CloudInitSchemaCheck,
    other: CloudInitSchemaCheck,
)
    requires
        !(test_parts_error(path, raw) is None && early_error(test_target(path, raw, seq![]))
            is None),
    ensures
        first_error(
            test_parts_error(path, raw),
            semantic_error(test_target(path, raw, steps), mode, check),
        ) == first_error(
            test_parts_error(path, raw),
            semantic_error(test_target(path, raw, steps), mode, other),
        ),
        test_parts_error(path, raw) is None ==> semantic_warning(
            test_target(path, raw, steps),
            mode,
            check,
        ) is None,
{
}

/// Puts a test together and validates it: `image` is what its document starts from,
/// `steps` and `cloud_init` are those of the document and of the fragments it uses.
pub fn load_test_config(
    path: &str,
    raw: RawTestDocument,
    image: Option<Reference>,
    steps: Vec<TestStep>,
    cloud_init: Option<Vec<Entry>>,
    mode: CloudInitSchemaMode,
    check: &CloudInitSchemaCheck,
) -> (r: Loaded<TestConfig>)
    ensures
        outcome(
            r.config,
            first_error(
                test_parts_error(path@, raw),
                semantic_error(test_target(path@, raw, steps@), mode, *check),
            ),
        ),
        opt_text(r.warning) == if test_parts_error(path@, raw) is None {
            semantic_warning(test_target(path@, raw, steps@), mode, *check)
        } else {
            None
        },
        r.config matches Ok(c) ==> {
            &&& c.image == image
            &&& c.isos == raw.isos
            &&& c.ports == raw.ports
            &&& c.steps == steps
            &&& c.files == raw.files
            &&& c.diagnostics_units == raw.diagnostics_units
            &&& c.step_timeout == raw.step_timeout
            &&& c.timeout == raw.timeout
            &&& c.cloud_init_timeout == 300
            &&& c.cloud_init == cloud_init
            &&& c.assert_block == raw.assert_block
        },
{
    match check_files(PlanKind::Test, path, &raw.files) {
        Ok(()) => {},
        Err(e) => {
            return Loaded { warning: None, config: Err(e) };
        },
    }
    if let Some(block) = &raw.assert_block {
        match validate_assert_block(block) {
            Ok(()) => {},
            Err(e) => {
                let context = cat4("invalid ", "test", " config: ", path);
                return Loaded { warning: None, config: Err(e.within(context.as_str())) };
            },
        }
    }
    let verdict = run_semantic_validators(
        SemanticValidationTarget::Test {
            path,
            root_cloud_init: as_root(&raw.cloud_init),
            steps: steps.as_slice(),
            ports: raw.ports.as_slice(),
            files: &raw.files,
        },
        mode,
        check,
    );
    match verdict.outcome {
        Ok(()) => Loaded {
            warning: verdict.warning,
            config: Ok(
                TestConfig {
                    image,
                    isos: raw.isos,
                    ports: raw.ports,
                    steps,
                    files: raw.files,
                    diagnostics_units: raw.diagnostics_units,
                    step_timeout: raw.step_timeout,
                    timeout: raw.timeout,
                    cloud_init_timeout: default_test_cloud_init_timeout(),
                    cloud_init,
                    assert_block: raw.assert_block,
                },
            ),
        },
        Err(e) => Loaded { warning: verdict.warning, config: Err(e) },
    }
}

/// Why the files of a build are refused.
pub open spec fn build_parts_error(path: Seq<char>, raw: RawBuildDocument) -> Option<Seq<char>> {
    config_error(PlanKind::Build, path, files_error("build"@, raw.files@, raw.files@.len()))
}

/// What a build is validated as.
pub open spec fn build_target(
    path: Seq<char>,
    raw: RawBuildDocument,
    output: Seq<char>,
    steps: Seq<TestStep>,
) -> TargetView {
    TargetView::Build {
        path,
        output,
        root: config_view(raw.cloud_init),
        steps,
        files: raw.files@,
    }
}

/// Whether the cloud-config of a build is to be checked against its schema: nothing that comes
/// before the schema refuses the build.
pub fn build_schema_check_due(path: &str, raw: &RawBuildDocument, output: &str) -> (r: bool)
    ensures
        r == (build_parts_error(path@, *raw) is None && early_error(
            build_target(path@, *raw, output@, seq![]),
        ) is None),
{
    validate_top_level_files("build", &raw.files).is_ok() && validate_build_output_filename(
        output,
    ).is_ok() && check_root(&raw.cloud_init, path)
}

/// What a check against the schema gives does not matter where it is not due: a build that is
/// refused before is refused with the same error, and nothing is said of the schema.
pub proof fn build_checks_matter_only_when_due(
    path: Seq<char>,
    raw: RawBuildDocument,
    output: Seq<char>,
    steps: Seq<TestStep>,
    mode: CloudInitSchemaMode,
    check: CloudInitSchemaCheck,
    other: CloudInitSchemaCheck,
)
    requires
        !(build_parts_error(path, raw) is None && early_error(
            build_target(path, raw, output, seq![]),
        ) is None),
    ensures
        first_error(
            build_parts_error(path, raw),
            semantic_error(build_target(path, raw, output, steps), mode, check),
        ) == first_error(
            build_parts_error(path, raw),
            semantic_error(build_target(path, raw, output, steps), mode, other),
        ),
        build_parts_error(path, raw) is None ==> semantic_warning(
            build_target(path, raw, output, steps),
            mode,
            check,
        ) is None,
{
}

/// Puts a build together and validates it: `image` and `output` are those its document
/// names, `steps` and `cloud_init` are those of the document and of the fragments it
/// uses.
pub fn load_build_config(
    path: &str,
    raw: RawBuildDocument,
    image: Reference,
    output: String,
    steps: Vec<TestStep>,
    cloud_init: Option<Vec<Entry>>,
    mode: CloudInitSchemaMode,
    check: &CloudInitSchemaCheck,
) -> (r: Loaded<BuildConfig>)
    ensures
        outcome(
            r.config,
            first_error(
                build_parts_error(path@, raw),
                semantic_error(build_target(path@, raw, output@, steps@), mode, *check),
            ),
        ),
        opt_text(r.warning) == if build_parts_error(path@, raw) is None {
            semantic_warning(build_target(path@, raw, output@, steps@), mode, *check)
        } else {
            None
        },
        r.config matches Ok(c) ==> {
            &&& c.image == image
            &&& c.output == output
            &&& c.disk_size == raw.disk_size
            &&& c.steps == steps
            &&& c.files == raw.files
            &&& c.step_timeout == raw.step_timeout
            &&& c.timeout == raw.timeout
            &&& c.cloud_init_timeout == 600
            &&& c.cloud_init == cloud_init
            &&& c.compress == raw.compress
        },
{
    match check_files(PlanKind::Build, path, &raw.files) {
        Ok(()) => {},
        Err(e) => {
            return Loaded { warning: None, config: Err(e) };
        },
    }
    let verdict = run_semantic_validators(
        SemanticValidationTarget::Build {
            path,
            output: output.as_str(),
            root_cloud_init: as_root(&raw.cloud_init),
            steps: steps.as_slice(),
            files: &raw.files,
        },
        mode,
        check,
    );
    match verdict.outcome {
        Ok(()) => Loaded {
            warning: verdict.warning,
            config: Ok(
                BuildConfig {
                    image,
                    output,
                    disk_size: raw.disk_size,
                    steps,
                    files: raw.files,
                    step_timeout: raw.step_timeout,
                    timeout: raw.timeout,
                    cloud_init_timeout: default_build_cloud_init_timeout(),
                    cloud_init,
                    compress: raw.compress,
                },
            ),
        },
        Err(e) => Loaded { warning: verdict.warning, config: Err(e) },
    }
}

/// A test that was loaded has steps that can be run: every run step, also in a
/// fragment, was accepted.
pub proof fn loaded_steps_are_accepted(
    target: TargetView,
    mode: CloudInitSchemaMode,
    check: CloudInitSchemaCheck,
)
    requires
        semantic_error(target, mode, check) is None,
    ensures
        match target {
            TargetView::Build { steps, .. } => steps_error(
                PlanKind::Build,
                steps,
                steps.len(),
            ) is None,
            TargetView::Test { steps, ports, .. } => {
                &&& steps_error(PlanKind::Test, steps, steps.len()) is None
                &&& some_on_host(steps, steps.len()) ==> ports.len() > 0
            },
        },
{
}

} // verus!
