//! When plans and their parts are accepted, told by what they hold.

use vstd::prelude::*;
use vstd::string::*;

use crate::cloud_init::{CloudInitSchemaCheck, CloudInitSchemaMode, cloud_init_error, names_source};
use crate::document::{AssertBlock, AssertFile, AssertUser, DocumentType};
use crate::globbing::has_wildcard;
use crate::inputs::{
    InputDeclaration, InputType, contradiction, declared, fragment_inputs,
    resolution_is_faithful, resolved_input, resolved_inputs, undeclared,
};
use crate::load::{
    RawBuildDocument, RawTestDocument, build_image, build_parts_error, build_target,
    semantic_error, test_image, test_parts_error, test_target,
};
use crate::numbers::{integer, is_number, lowered};
use crate::pairs::{Pair, value_of};
use crate::reference::{ReferenceView, reference_of, stays_below};
use crate::sections::{
    bootcmd_error, build_taboo, fragment_taboo, sections_error, taboo_error, test_taboo,
};
use crate::step::{
    ArchiveStep, SecondsValue, StepTarget, TestStep, bash_template, fallback_template, seconds,
    sh_template, shell_template,
};
use crate::step_rules::{
    PlanKind, on_host, output_error, some_on_host, step_error, steps_accepted_iff,
};
use crate::text::{find, is_space, opt_text, starts_with, trim, words};
use crate::validate::{
    FileEntry, accepted_owners_are_plain, assert_block_error, assert_file_error,
    assert_files_error, assert_users_error, attributes_error, bad_in_name, file_error,
    files_accepted_iff, first_bad, first_error, is_octal, is_shell_metacharacter, owner_error,
    valid_mode,
};
use crate::value::{EntryView, NodeView, entry_views, get, has_key};

verus! {

// ---------------------------------------------------------------------------
// Inputs of fragments
// ---------------------------------------------------------------------------

/// What a caller gives for an input; the word `__default__` gives nothing.
pub open spec fn given_for(name: Seq<char>, given: Seq<Pair>) -> Option<Seq<char>> {
    match value_of(given, name) {
        Some(v) => if v == "__default__"@ {
            None
        } else {
            Some(v)
        },
        None => None,
    }
}

/// Whether an input can be called with what is given: a number where a number is declared, one of
/// the words `true` and `false`, in any case, where a truth value is, and something at all, given
/// or by default, where the input is required.
pub open spec fn input_fits(decl: InputDeclaration, given: Option<Seq<char>>) -> bool {
    let value = match (given, decl.default) {
        (Some(v), _) => Some(v),
        (None, Some(d)) => Some(d@),
        (None, None) => None,
    };
    match value {
        Some(v) => {
            &&& decl.input_type == InputType::Number ==> is_number(v)
            &&& decl.input_type == InputType::Boolean ==> lowered(v) == "true"@ || lowered(v)
                == "false"@
        },
        None => !decl.required,
    }
}

proof fn lemma_contradictions(decls: Seq<(String, InputDeclaration)>, n: nat)
    requires
        n <= decls.len(),
    ensures
        contradiction(decls, n) is None <==> forall|i: int|
            0 <= i < n ==> !((#[trigger] decls[i]).1.required && decls[i].1.default is Some),
    decreases n,
{
    if n > 0 {
        lemma_contradictions(decls, (n - 1) as nat);
        let last = decls[n - 1];
        assert(last.1.required || !last.1.required);
    }
}

proof fn lemma_undeclared(
    path: Seq<char>,
    decls: Seq<(String, InputDeclaration)>,
    given: Seq<Pair>,
    n: nat,
)
    requires
        n <= given.len(),
    ensures
        undeclared(path, decls, given, n) is None <==> forall|k: int|
            0 <= k < n ==> declared(decls).contains((#[trigger] given[k]).0),
    decreases n,
{
    if n > 0 {
        lemma_undeclared(path, decls, given, (n - 1) as nat);
        assert(declared(decls).contains(given[n - 1].0) || !declared(decls).contains(
            given[n - 1].0,
        ));
    }
}

proof fn lemma_resolvable(decls: Seq<(String, InputDeclaration)>, given: Seq<Pair>, n: nat)
    requires
        n <= decls.len(),
    ensures
        resolved_inputs(decls, given, n) is Ok <==> forall|i: int|
            0 <= i < n ==> input_fits(
                (#[trigger] decls[i]).1,
                given_for(decls[i].0@, given),
            ),
    decreases n,
{
    if n > 0 {
        lemma_resolvable(decls, given, (n - 1) as nat);
        let last = decls[n - 1];
        assert(resolved_input(last, given) is Ok <==> input_fits(
            last.1,
            given_for(last.0@, given),
        ));
        if resolved_inputs(decls, given, (n - 1) as nat) is Err {
            let i = choose|i: int|
                0 <= i < n - 1 && !input_fits(
                    (#[trigger] decls[i]).1,
                    given_for(decls[i].0@, given),
                );
            assert(!input_fits(decls[i].1, given_for(decls[i].0@, given)));
        }
    }
}

/// A fragment can be called exactly if no declaration is both required and has a default, nothing
/// is given that is not declared, and each input can be called with what is given.
pub proof fn calls_accepted_iff(
    path: Seq<char>,
    decls: Seq<(String, InputDeclaration)>,
    given: Seq<Pair>,
)
    ensures
        fragment_inputs(path, decls, given) is Ok <==> {
            &&& forall|i: int|
                0 <= i < decls.len() ==> !((#[trigger] decls[i]).1.required
                    && decls[i].1.default is Some)
            &&& forall|k: int|
                0 <= k < given.len() ==> declared(decls).contains((#[trigger] given[k]).0)
            &&& forall|i: int|
                0 <= i < decls.len() ==> input_fits(
                    (#[trigger] decls[i]).1,
                    given_for(decls[i].0@, given),
                )
        },
{
    lemma_contradictions(decls, decls.len());
    lemma_undeclared(path, decls, given, given.len());
    lemma_resolvable(decls, given, decls.len());
}

/// What an input is called with: what is given, or else its default, or else nothing.
pub proof fn inputs_have_what_was_given(
    path: Seq<char>,
    decls: Seq<(String, InputDeclaration)>,
    given: Seq<Pair>,
    i: int,
)
    requires
        declared(decls).no_duplicates(),
        fragment_inputs(path, decls, given) is Ok,
        0 <= i < decls.len(),
    ensures
        value_of(fragment_inputs(path, decls, given)->Ok_0, decls[i].0@) == match given_for(
            decls[i].0@,
            given,
        ) {
            Some(v) => Some(v),
            None => match decls[i].1.default {
                Some(d) => Some(d@),
                None => None,
            },
        },
{
    resolution_is_faithful(decls, given, decls.len(), i);
}

// ---------------------------------------------------------------------------
// Files
// ---------------------------------------------------------------------------

/// Whether a name can be that of an owner or a group: it is not blank, and holds neither white
/// space nor a slash nor what a shell makes something else of.
pub open spec fn name_fits(name: Seq<char>) -> bool {
    name.len() > 0 && forall|i: int|
        0 <= i < name.len() ==> !is_space(#[trigger] name[i]) && name[i] != '/'
            && !is_shell_metacharacter(name[i])
}

/// Whether a mode is three or four digits from `0` to `7`.
pub open spec fn mode_fits(mode: Seq<char>) -> bool {
    (mode.len() == 3 || mode.len() == 4) && forall|i: int|
        0 <= i < mode.len() ==> '0' <= #[trigger] mode[i] <= '7'
}

/// Whether the attributes of an entry, as far as there are any, are sound.
pub open spec fn attributes_fit(
    mode: Option<String>,
    owner: Option<String>,
    group: Option<String>,
) -> bool {
    &&& mode matches Some(m) ==> mode_fits(m@)
    &&& owner matches Some(o) ==> name_fits(o@)
    &&& group matches Some(g) ==> name_fits(g@)
}

proof fn lemma_names_without_bad(s: Seq<char>)
    ensures
        first_bad(s) is None <==> forall|i: int|
            0 <= i < s.len() ==> !bad_in_name(#[trigger] s[i]),
    decreases s.len(),
{
    if s.len() > 0 {
        let rest = s.skip(1);
        lemma_names_without_bad(rest);
        if first_bad(rest) is None {
            assert forall|i: int| 0 <= i < s.len() && !bad_in_name(s[0]) implies !bad_in_name(
                #[trigger] s[i],
            ) by {
                if i > 0 {
                    assert(s[i] == rest[i - 1]);
                }
            }
        } else {
            let i = choose|i: int| 0 <= i < rest.len() && bad_in_name(#[trigger] rest[i]);
            assert(bad_in_name(s[i + 1]));
        }
    }
}

/// The name of an owner or a group is accepted exactly if it is not blank and holds neither white
/// space nor a slash nor what a shell makes something else of.
pub proof fn names_accepted_iff(
    name: Seq<char>,
    field: Seq<char>,
    src: Seq<char>,
    kind: Seq<char>,
)
    ensures
        owner_error(name, field, src, kind) is None <==> name_fits(name),
{
    lemma_names_without_bad(name);
    accepted_owners_are_plain(name, field, src, kind);
    if name_fits(name) {
        assert(!is_space(name[0]) && !is_space(name[name.len() - 1]));
        assert(trim(name) == name);
        assert forall|i: int| 0 <= i < name.len() implies !bad_in_name(#[trigger] name[i]) by {
            assert(!is_space(name[i]) && name[i] != '/' && !is_shell_metacharacter(name[i]));
        }
    }
}

/// Attributes are accepted exactly if they are sound.
pub proof fn attributes_accepted_iff(
    mode: Option<String>,
    owner: Option<String>,
    group: Option<String>,
    src: Seq<char>,
    kind: Seq<char>,
)
    ensures
        attributes_error(mode, owner, group, src, kind) is None <==> attributes_fit(
            mode,
            owner,
            group,
        ),
{
    if let Some(o) = owner {
        names_accepted_iff(o@, "owner"@, src, kind);
    }
    if let Some(g) = group {
        names_accepted_iff(g@, "group"@, src, kind);
    }
    if let Some(m) = mode {
        if valid_mode(m@) {
            assert forall|i: int| 0 <= i < m@.len() implies '0' <= #[trigger] m@[i] <= '7' by {
                assert(is_octal(m@[i]));
            }
        }
        if mode_fits(m@) {
            assert forall|i: int| 0 <= i < m@.len() implies is_octal(#[trigger] m@[i]) by {
                assert('0' <= m@[i] <= '7');
            }
        }
    }
}

/// A file is accepted exactly if its source is a reference, its place in the guest an absolute
/// path, that of a directory where the source is a pattern, and its attributes are sound.
pub proof fn files_accepted_for(kind: Seq<char>, file: FileEntry)
    ensures
        file_error(kind, file) is None <==> {
            let src = trim(file.src@);
            let dest = trim(file.dest@);
            &&& "@"@.is_prefix_of(src)
            &&& reference_of(src) is Ok
            &&& "/"@.is_prefix_of(dest)
            &&& has_wildcard(src) ==> "/"@.is_suffix_of(dest)
            &&& attributes_fit(file.mode, file.owner, file.group)
        },
{
    reveal_strlit("@");
    reveal_strlit("/");
    attributes_accepted_iff(file.mode, file.owner, file.group, trim(file.src@), kind);
}

// ---------------------------------------------------------------------------
// Assertions
// ---------------------------------------------------------------------------

/// Whether an assertion on a path is sound: the path is absolute, and attributes are sound and
/// asked for only of a path that must be there.
pub open spec fn path_assertion_fits(path: Seq<char>, expected: AssertFile) -> bool {
    &&& "/"@.is_prefix_of(path)
    &&& if expected.exists {
        attributes_fit(expected.mode, expected.owner, expected.group)
    } else {
        expected.filetype is None && expected.owner is None && expected.group is None
            && expected.mode is None
    }
}

proof fn lemma_path_assertions(files: Seq<(String, AssertFile)>, n: nat)
    requires
        n <= files.len(),
    ensures
        assert_files_error(files, n) is None <==> forall|i: int|
            0 <= i < n ==> path_assertion_fits((#[trigger] files[i]).0@, files[i].1),
    decreases n,
{
    if n > 0 {
        lemma_path_assertions(files, (n - 1) as nat);
        let (path, expected) = files[n - 1];
        attributes_accepted_iff(
            expected.mode,
            expected.owner,
            expected.group,
            path@,
            "assert"@,
        );
        assert(assert_file_error(path@, expected) is None <==> path_assertion_fits(
            path@,
            expected,
        ));
    }
}

proof fn lemma_user_assertions(users: Seq<(String, AssertUser)>, n: nat)
    requires
        n <= users.len(),
    ensures
        assert_users_error(users, n) is None <==> forall|i: int|
            0 <= i < n ==> ((#[trigger] users[i]).1.exists || users[i].1.shell is None
                && users[i].1.groups@.len() == 0),
    decreases n,
{
    if n > 0 {
        lemma_user_assertions(users, (n - 1) as nat);
        assert(users[n - 1].1.exists || !users[n - 1].1.exists);
    }
}

/// A block of assertions is accepted exactly if each of its assertions on paths is sound, and a
/// shell and groups are asked for only of users who must be there.
pub proof fn assertions_accepted_iff(block: AssertBlock)
    ensures
        assert_block_error(block) is None <==> {
            &&& forall|i: int|
                0 <= i < block.files@.len() ==> path_assertion_fits(
                    (#[trigger] block.files@[i]).0@,
                    block.files@[i].1,
                )
            &&& forall|i: int|
                0 <= i < block.users@.len() ==> ((#[trigger] block.users@[i]).1.exists
                    || block.users@[i].1.shell is None && block.users@[i].1.groups@.len() == 0)
        },
{
    lemma_path_assertions(block.files@, block.files@.len());
    lemma_user_assertions(block.users@, block.users@.len());
}

// ---------------------------------------------------------------------------
// Steps
// ---------------------------------------------------------------------------

/// Whether an archive step of a build is sound: its source is a whole asset, it has nothing of a
/// script, and it names an absolute place to unpack to exactly if it unpacks in the guest.
pub open spec fn archive_fits(step: ArchiveStep) -> bool {
    let src = trim(step.archive.src@);
    &&& reference_of(src) matches Ok(ReferenceView::Asset { name, path }) && path is None
    &&& src.len() > 0
    &&& step.run is None && step.shell is None && step.timeout is None
    &&& if step.target == Some(StepTarget::Guest) {
        step.archive.dest matches Some(dest) && trim(dest@).len() > 0 && "/"@.is_prefix_of(dest@)
    } else {
        step.archive.dest is None
    }
}

/// A step is accepted exactly if it can be run: a script with an interpreter, and not as root on
/// the host; an archive in a build only, and a sound one; and a fragment if all its steps are
/// accepted.
pub proof fn steps_accepted_for(kind: PlanKind, step: TestStep)
    ensures
        step matches TestStep::Run(run) ==> (step_error(kind, step) is None <==> !(run.target
            == StepTarget::Host && run.sudo == Some(true)) && shell_template(
            opt_text(run.shell),
        ) is Ok),
        step matches TestStep::Archive(archive) ==> (step_error(kind, step) is None <==> kind
            == PlanKind::Build && archive_fits(archive)),
        step matches TestStep::Invoke(invoke) ==> (step_error(kind, step) is None <==> forall|
            i: int,
        |
            0 <= i < invoke.steps@.len() ==> step_error(kind, #[trigger] invoke.steps@[i])
                is None),
{
    if let TestStep::Invoke(invoke) = step {
        steps_accepted_iff(kind, invoke.steps@);
    }
}

/// Whether a step runs on the host: a script that does, or a fragment with such a step.
pub proof fn steps_on_the_host(steps: Seq<TestStep>, n: nat)
    requires
        n <= steps.len(),
    ensures
        some_on_host(steps, n) <==> exists|i: int| 0 <= i < n && on_host(#[trigger] steps[i]),
        forall|i: int|
            0 <= i < n ==> match #[trigger] steps[i] {
                TestStep::Run(run) => on_host(steps[i]) <==> run.target == StepTarget::Host,
                TestStep::Archive(_) => !on_host(steps[i]),
                TestStep::Invoke(invoke) => on_host(steps[i]) <==> some_on_host(
                    invoke.steps@,
                    invoke.steps@.len(),
                ),
            },
    decreases n,
{
    if n > 0 {
        steps_on_the_host(steps, (n - 1) as nat);
        if on_host(steps[n - 1]) {
            assert(0 <= n - 1 < n);
        }
    }
}

/// The name of a build's output is accepted exactly if it is the bare name of a file.
pub proof fn outputs_accepted_iff(output: Seq<char>)
    ensures
        output_error(output) is None <==> {
            &&& output.len() > 0
            &&& output != "."@
            &&& output != ".."@
            &&& !output.contains('/')
            &&& !output.contains('\\')
        },
{
    reveal_strlit("/");
    if starts_with(output, "/"@) {
        assert(output[0] == "/"@[0]);
        assert(output.contains('/'));
    }
}

// ---------------------------------------------------------------------------
// Sections
// ---------------------------------------------------------------------------

proof fn lemma_sections(
    entries: Seq<EntryView>,
    sections: Seq<Seq<char>>,
    kind: DocumentType,
    path: Seq<char>,
    n: nat,
)
    requires
        n <= sections.len(),
    ensures
        taboo_error(entries, sections, kind, path, n) is None <==> forall|i: int|
            0 <= i < n ==> get(entries, NodeView::String(#[trigger] sections[i])) is None,
    decreases n,
{
    if n > 0 {
        lemma_sections(entries, sections, kind, path, (n - 1) as nat);
        assert(get(entries, NodeView::String(sections[n - 1])) is None || has_key(
            entries,
            sections[n - 1],
        ));
    }
}

/// A document is accepted exactly if it holds no section that its kind must not hold.
pub proof fn sections_accepted_iff(
    entries: Seq<EntryView>,
    sections: Seq<Seq<char>>,
    kind: DocumentType,
    path: Seq<char>,
)
    ensures
        sections_error(NodeView::Mapping(entries), sections, kind, path) is None <==> forall|
            i: int,
        |
            0 <= i < sections.len() ==> get(entries, NodeView::String(#[trigger] sections[i]))
                is None,
        bootcmd_error(NodeView::Mapping(entries), path) is None <==> get(
            entries,
            NodeView::String("bootcmd"@),
        ) is None,
{
    lemma_sections(entries, sections, kind, path, sections.len());
}

/// Fragments hold nothing of an entry point, tests nothing of a build, and builds nothing that
/// only a test has.
pub proof fn sections_have_their_documents()
    ensures
        fragment_taboo().contains("image"@),
        fragment_taboo().contains("output"@),
        fragment_taboo().contains("ports"@),
        fragment_taboo().contains("isos"@),
        fragment_taboo().contains("files"@),
        fragment_taboo().contains("timeout"@),
        fragment_taboo().contains("step_timeout"@),
        fragment_taboo().contains("diagnostics_units"@),
        fragment_taboo().contains("disk_size"@),
        fragment_taboo().contains("memsize"@),
        fragment_taboo().contains("smp"@),
        fragment_taboo().contains("compress"@),
        fragment_taboo().len() == 12,
        test_taboo().contains("output"@),
        test_taboo().contains("disk_size"@),
        test_taboo().contains("memsize"@),
        test_taboo().contains("smp"@),
        test_taboo().contains("compress"@),
        test_taboo().len() == 5,
        build_taboo().contains("ports"@),
        build_taboo().contains("isos"@),
        build_taboo().contains("diagnostics_units"@),
        build_taboo().contains("memsize"@),
        build_taboo().contains("smp"@),
        build_taboo().len() == 5,
{
    let f = fragment_taboo();
    assert(f[0] == "ports"@ && f[1] == "isos"@ && f[2] == "diagnostics_units"@);
    assert(f[3] == "disk_size"@ && f[4] == "memsize"@ && f[5] == "smp"@);
    assert(f[6] == "step_timeout"@ && f[7] == "timeout"@ && f[8] == "image"@);
    assert(f[9] == "output"@ && f[10] == "compress"@ && f[11] == "files"@);
    let t = test_taboo();
    assert(t[0] == "disk_size"@ && t[1] == "memsize"@ && t[2] == "smp"@);
    assert(t[3] == "output"@ && t[4] == "compress"@);
    let b = build_taboo();
    assert(b[0] == "ports"@ && b[1] == "isos"@ && b[2] == "diagnostics_units"@);
    assert(b[3] == "memsize"@ && b[4] == "smp"@);
}

// ---------------------------------------------------------------------------
// Cloud-configs
// ---------------------------------------------------------------------------

proof fn lemma_sources(files: Seq<NodeView>, n: nat)
    requires
        n <= files.len(),
    ensures
        names_source(files, n) <==> exists|i: int|
            0 <= i < n && (#[trigger] files[i] matches NodeView::Mapping(fields) && get(
                fields,
                NodeView::String("source"@),
            ) is Some),
    decreases n,
{
    if n > 0 {
        lemma_sources(files, (n - 1) as nat);
        if let NodeView::Mapping(fields) = files[n - 1] {
            if get(fields, NodeView::String("source"@)) is Some {
                assert(0 <= n - 1 < n);
            }
        }
    }
}

/// A cloud-config is accepted exactly if no file that it writes is taken from somewhere else, and
/// it does not switch passwords off for ssh.
pub proof fn configs_accepted_iff(config: Seq<EntryView>, path: Seq<char>)
    ensures
        cloud_init_error(config, path) is None <==> {
            &&& get(config, NodeView::String("write_files"@)) matches Some(
                NodeView::Sequence(files),
            ) ==> forall|i: int|
                0 <= i < files.len() ==> !(#[trigger] files[i] matches NodeView::Mapping(fields)
                    && get(fields, NodeView::String("source"@)) is Some)
            &&& get(config, NodeView::String("ssh_pwauth"@)) != Some(NodeView::Bool(false))
        },
{
    if let Some(NodeView::Sequence(files)) = get(config, NodeView::String("write_files"@)) {
        lemma_sources(files, files.len());
    }
}

// ---------------------------------------------------------------------------
// Whole plans
// ---------------------------------------------------------------------------

/// Whether a schema lets a cloud-config pass: it is held against it only in the strict mode, and
/// refused only if fault was found.
pub open spec fn schema_passes(mode: CloudInitSchemaMode, check: CloudInitSchemaCheck) -> bool {
    !(mode == CloudInitSchemaMode::Strict && check is Invalid)
}

/// A test is loaded exactly if its files, its assertions, its cloud-config and its steps are
/// accepted, the schema lets its cloud-config pass, and a port is forwarded where a step runs on
/// the host.
pub proof fn tests_load_iff(
    path: Seq<char>,
    raw: RawTestDocument,
    steps: Seq<TestStep>,
    mode: CloudInitSchemaMode,
    check: CloudInitSchemaCheck,
)
    ensures
        first_error(
            test_parts_error(path, raw),
            semantic_error(test_target(path, raw, steps), mode, check),
        ) is None <==> {
            &&& forall|i: int|
                0 <= i < raw.files@.len() ==> file_error("test"@, #[trigger] raw.files@[i]) is None
            &&& raw.assert_block matches Some(block) ==> assert_block_error(block) is None
            &&& raw.cloud_init matches Some(config) ==> cloud_init_error(
                entry_views(config@),
                path,
            ) is None && schema_passes(mode, check)
            &&& forall|i: int|
                0 <= i < steps.len() ==> step_error(PlanKind::Test, #[trigger] steps[i]) is None
            &&& some_on_host(steps, steps.len()) ==> raw.ports@.len() > 0
        },
{
    files_accepted_iff("test"@, raw.files@);
    steps_accepted_iff(PlanKind::Test, steps);
}

/// A build is loaded exactly if its files, its output, its cloud-config and its steps are
/// accepted, and the schema lets its cloud-config pass.
pub proof fn builds_load_iff(
    path: Seq<char>,
    raw: RawBuildDocument,
    output: Seq<char>,
    steps: Seq<TestStep>,
    mode: CloudInitSchemaMode,
    check: CloudInitSchemaCheck,
)
    ensures
        first_error(
            build_parts_error(path, raw),
            semantic_error(build_target(path, raw, output, steps), mode, check),
        ) is None <==> {
            &&& forall|i: int|
                0 <= i < raw.files@.len() ==> file_error("build"@, #[trigger] raw.files@[i]) is None
            &&& output_error(output) is None
            &&& raw.cloud_init matches Some(config) ==> cloud_init_error(
                entry_views(config@),
                path,
            ) is None && schema_passes(mode, check)
            &&& forall|i: int|
                0 <= i < steps.len() ==> step_error(PlanKind::Build, #[trigger] steps[i]) is None
        },
{
    files_accepted_iff("build"@, raw.files@);
    steps_accepted_iff(PlanKind::Build, steps);
}

/// A test needs a document of its kind, and an image, if it names one, that is a reference; a
/// build needs one of its kind, an image and the name of its output.
pub proof fn documents_open_iff(
    path: Seq<char>,
    kind: DocumentType,
    image: Option<Seq<char>>,
    output: Option<Seq<char>>,
)
    ensures
        test_image(path, kind, image) is Ok <==> kind == DocumentType::Test && (
        image matches Some(raw) ==> trim(raw).len() > 0 && reference_of(raw) is Ok),
        test_image(path, kind, image) matches Ok(opened) ==> match image {
            Some(raw) => opened == Some(reference_of(raw)->Ok_0),
            None => opened is None,
        },
        build_image(path, kind, image, output) is Ok <==> kind == DocumentType::Build && (
        image matches Some(raw) && trim(raw).len() > 0 && reference_of(raw) is Ok) && (
        output matches Some(name) && trim(name).len() > 0),
        build_image(path, kind, image, output) matches Ok(opened) ==> opened.0 == reference_of(
            image->0,
        )->Ok_0 && opened.1 == output->0,
{
}

// ---------------------------------------------------------------------------
// References, interpreters and seconds
// ---------------------------------------------------------------------------

/// What the forms of a reference name: `@` the repository, `@NAME` an asset, and `@SCHEME://PATH`
/// a path in the repository, among the artifacts or in an asset. A path has to stay below.
pub proof fn references_name_what_they_say(scheme: Seq<char>, path: Seq<char>)
    requires
        find(scheme, "://"@) is None,
        find(scheme + "://"@ + path, "://"@) == Some(scheme.len() as int),
    ensures
        scheme.len() > 0 ==> reference_of("@"@ + scheme) == Ok::<ReferenceView, Seq<char>>(
            ReferenceView::Asset { name: scheme, path: None },
        ),
        scheme.len() == 0 ==> reference_of("@"@ + scheme) == Ok::<ReferenceView, Seq<char>>(
            ReferenceView::Repo { path: None },
        ),
        ({
            let reference = reference_of("@"@ + scheme + "://"@ + path);
            let inner = if path.len() == 0 {
                None
            } else {
                Some(path)
            };
            if path.len() > 0 && !stays_below(path) {
                reference is Err
            } else if scheme.len() == 0 {
                reference == Ok::<ReferenceView, Seq<char>>(ReferenceView::Repo { path: inner })
            } else if scheme == "artifact"@ {
                reference == Ok::<ReferenceView, Seq<char>>(
                    ReferenceView::Artifact { path: inner },
                )
            } else {
                reference == Ok::<ReferenceView, Seq<char>>(
                    ReferenceView::Asset { name: scheme, path: inner },
                )
            }
        }),
{
    reveal_strlit("@");
    reveal_strlit("://");
    let short = "@"@ + scheme;
    assert(short.skip(1) =~= scheme);
    assert("@"@.is_prefix_of(short)) by {
        assert(short.take(1) =~= "@"@);
    }
    let body = scheme + "://"@ + path;
    let long = "@"@ + scheme + "://"@ + path;
    assert(long.skip(1) =~= body);
    assert("@"@.is_prefix_of(long)) by {
        assert(long.take(1) =~= "@"@);
    }
    let i = scheme.len() as int;
    assert(body.take(i) =~= scheme);
    assert(body.skip(i + 3) =~= path);
}

/// What does not start with `@` is no reference.
pub proof fn references_start_with_their_mark(raw: Seq<char>)
    requires
        raw.len() == 0 || raw[0] != '@',
    ensures
        reference_of(raw) is Err,
{
    reveal_strlit("@");
    if starts_with(raw, "@"@) {
        assert(raw[0] == "@"@[0]);
    }
}

/// An interpreter is known by its name, or written out with a place for the script. Without one a
/// script runs under `bash`, which stops at the first command that fails, and only then `sh` may
/// stand in for it. A known interpreter is the first word of its command line, and the script
/// the last.
pub proof fn interpreters_are_resolved(shell: Option<Seq<char>>)
    ensures
        shell is None ==> shell_template(shell) == shell_template(Some("bash"@)),
        shell_template(Some("bash"@)) matches Ok(t) && t[0] == "bash"@ && t.last() == "{0}"@
            && t.contains("-e"@) && t.contains("pipefail"@),
        shell_template(Some("sh"@)) matches Ok(t) && t[0] == "sh"@ && t.last() == "{0}"@
            && t.contains("-e"@),
        shell_template(Some("python"@)) matches Ok(t) && t[0] == "python3"@ && t.last() == "{0}"@,
        shell matches Some(s) ==> s != "bash"@ && s != "sh"@ && s != "python"@ ==> (
        shell_template(shell) is Ok <==> find(s, "{0}"@) is Some),
        shell matches Some(s) ==> s != "bash"@ && s != "sh"@ && s != "python"@ ==> (
        shell_template(shell) matches Ok(t) ==> t == words(s)),
        fallback_template(shell) is Some <==> shell is None,
        fallback_template(None) == Some(shell_template(Some("sh"@))->Ok_0),
{
    reveal_strlit("bash");
    reveal_strlit("sh");
    reveal_strlit("python");
    assert("bash"@.len() == 4 && "sh"@.len() == 2 && "python"@.len() == 6);
    let b = bash_template();
    assert(b[3] == "-e"@ && b[5] == "pipefail"@);
    assert(sh_template()[1] == "-e"@);
}

/// A number of seconds is accepted exactly if it is positive, written as a number or as text.
pub proof fn seconds_are_positive(value: SecondsValue)
    ensures
        value matches SecondsValue::Integer(n) ==> (seconds(value) is Ok <==> n > 0),
        value matches SecondsValue::Integer(n) ==> (seconds(value) matches Ok(secs) ==> secs == n),
        value matches SecondsValue::String(s) ==> (seconds(value) is Ok <==> (integer(
            trim(s@),
        ) matches Some(n) && n > 0)),
        value matches SecondsValue::String(s) ==> (seconds(value) matches Ok(secs) ==> integer(
            trim(s@),
        ) == Some(secs)),
{
}

} // verus!
