//! Documents as a whole: what filling in changes in them, which are taken in, and what is found
//! in them.

use vstd::prelude::*;
use vstd::string::*;

use crate::cloud_init::{
    CloudInitSchemaCheck, CloudInitSchemaMode, schema_error, schema_message, schema_mode,
    schema_warning,
};
use crate::document::DocumentType;
use crate::inputs::{InputDeclaration, fragment_inputs};
use crate::numbers::lowered;
use crate::ordered::precedes;
use crate::pairs::Pair;
use crate::sections::{
    StepShape, build_taboo, filled_fragment, fragment_taboo, shape_of, taboo_error, test_taboo,
};
use crate::template::{entries_substituted, items_substituted, substituted, value_substituted};
use crate::text::{
    ends_with, find, is_trim, is_white, starts_with, trim, trimming_takes_white_space,
};
use crate::value::{EntryView, NodeView, get_text, has_key, lemma_find_key};
use crate::yaml::{build_document, plugin_settings, schema_document, test_document, yaml_text};

verus! {

// ---------------------------------------------------------------------------
// Filling in
// ---------------------------------------------------------------------------

proof fn lemma_items_filled(
    items: Seq<NodeView>,
    n: nat,
    namespace: Seq<char>,
    values: Seq<Pair>,
    defer: bool,
)
    requires
        n <= items.len(),
    ensures
        items_substituted(items, n, namespace, values, defer) matches Ok(new) ==> new.len() == n
            && forall|k: int|
            0 <= k < n ==> value_substituted(items[k], namespace, values, defer) == Ok::<
                NodeView,
                Seq<char>,
            >(#[trigger] new[k]),
        items_substituted(items, n, namespace, values, defer) is Ok <==> forall|k: int|
            0 <= k < n ==> value_substituted(#[trigger] items[k], namespace, values, defer) is Ok,
    decreases n,
{
    if n > 0 {
        lemma_items_filled(items, (n - 1) as nat, namespace, values, defer);
    }
}

proof fn lemma_entries_filled(
    entries: Seq<EntryView>,
    n: nat,
    namespace: Seq<char>,
    values: Seq<Pair>,
    defer: bool,
)
    requires
        n <= entries.len(),
    ensures
        entries_substituted(entries, n, namespace, values, defer) matches Ok(new) ==> new.len() == n
            && forall|k: int|
            0 <= k < n ==> (#[trigger] new[k]).key == entries[k].key && value_substituted(
                entries[k].value,
                namespace,
                values,
                defer,
            ) == Ok::<NodeView, Seq<char>>(new[k].value),
        entries_substituted(entries, n, namespace, values, defer) is Ok <==> forall|k: int|
            0 <= k < n ==> value_substituted(
                (#[trigger] entries[k]).value,
                namespace,
                values,
                defer,
            ) is Ok,
    decreases n,
{
    if n > 0 {
        lemma_entries_filled(entries, (n - 1) as nat, namespace, values, defer);
    }
}

/// Filling in goes into every item of a list and every value of a mapping, each in its place,
/// and leaves keys and all that is no text alone. It is refused just if one of the parts is.
pub proof fn filling_in_reaches_every_part(
    v: NodeView,
    namespace: Seq<char>,
    values: Seq<Pair>,
    defer: bool,
)
    ensures
        ({
            let filled = value_substituted(v, namespace, values, defer);
            match v {
                NodeView::String(text) => {
                    let new = substituted(text, text, namespace, values, defer);
                    &&& filled is Ok <==> new is Ok
                    &&& new matches Ok(t) ==> filled == Ok::<NodeView, Seq<char>>(
                        NodeView::String(t),
                    )
                },
                NodeView::Sequence(items) => {
                    &&& filled is Ok <==> forall|k: int|
                        0 <= k < items.len() ==> value_substituted(
                            #[trigger] items[k],
                            namespace,
                            values,
                            defer,
                        ) is Ok
                    &&& filled matches Ok(r) ==> r matches NodeView::Sequence(new) && new.len()
                        == items.len() && forall|k: int|
                        0 <= k < items.len() ==> value_substituted(
                            items[k],
                            namespace,
                            values,
                            defer,
                        ) == Ok::<NodeView, Seq<char>>(#[trigger] new[k])
                },
                NodeView::Mapping(entries) => {
                    &&& filled is Ok <==> forall|k: int|
                        0 <= k < entries.len() ==> value_substituted(
                            (#[trigger] entries[k]).value,
                            namespace,
                            values,
                            defer,
                        ) is Ok
                    &&& filled matches Ok(r) ==> r matches NodeView::Mapping(new) && new.len()
                        == entries.len() && forall|k: int|
                        0 <= k < entries.len() ==> (#[trigger] new[k]).key == entries[k].key
                            && value_substituted(
                            entries[k].value,
                            namespace,
                            values,
                            defer,
                        ) == Ok::<NodeView, Seq<char>>(new[k].value)
                },
                _ => filled == Ok::<NodeView, Seq<char>>(v),
            }
        }),
{
    match v {
        NodeView::Sequence(items) => {
            lemma_items_filled(items, items.len(), namespace, values, defer);
        },
        NodeView::Mapping(entries) => {
            lemma_entries_filled(entries, entries.len(), namespace, values, defer);
        },
        _ => {},
    }
}

/// Whether no text in a value, at any depth, holds an expression.
pub open spec fn is_bare(v: NodeView) -> bool
    decreases v,
{
    match v {
        NodeView::String(text) => find(text, "${{"@) is None,
        NodeView::Sequence(items) => forall|k: int|
            0 <= k < items.len() ==> is_bare(#[trigger] items[k]),
        NodeView::Mapping(entries) => forall|k: int|
            0 <= k < entries.len() ==> is_bare((#[trigger] entries[k]).value),
        _ => true,
    }
}

/// A value without expressions stays as it is, whatever is filled in.
pub proof fn bare_values_stay(
    v: NodeView,
    namespace: Seq<char>,
    values: Seq<Pair>,
    defer: bool,
)
    requires
        is_bare(v),
    ensures
        value_substituted(v, namespace, values, defer) == Ok::<NodeView, Seq<char>>(v),
    decreases v,
{
    filling_in_reaches_every_part(v, namespace, values, defer);
    match v {
        NodeView::Sequence(items) => {
            assert forall|k: int| 0 <= k < items.len() implies value_substituted(
                #[trigger] items[k],
                namespace,
                values,
                defer,
            ) == Ok::<NodeView, Seq<char>>(items[k]) by {
                bare_values_stay(items[k], namespace, values, defer);
            }
            let new = value_substituted(v, namespace, values, defer)->Ok_0->Sequence_0;
            assert(new =~= items);
        },
        NodeView::Mapping(entries) => {
            assert forall|k: int| 0 <= k < entries.len() implies value_substituted(
                (#[trigger] entries[k]).value,
                namespace,
                values,
                defer,
            ) == Ok::<NodeView, Seq<char>>(entries[k].value) by {
                bare_values_stay(entries[k].value, namespace, values, defer);
            }
            let new = value_substituted(v, namespace, values, defer)->Ok_0->Mapping_0;
            assert forall|k: int| 0 <= k < entries.len() implies new[k] == entries[k] by {
                assert(new[k].key == entries[k].key);
            }
            assert(new =~= entries);
        },
        _ => {},
    }
}

// ---------------------------------------------------------------------------
// Fragments
// ---------------------------------------------------------------------------

/// A mapping is taken in as a fragment just if its type says that it is one, it has none of the
/// sections of a whole plan, its declarations can be read, and the inputs that are given fit;
/// then it is filled in with them. A list is never taken in.
pub proof fn fragments_are_taken_in_iff(
    path: Seq<char>,
    uses: Seq<char>,
    value: NodeView,
    reads_as: Option<DocumentType>,
    declarations: Result<Seq<(String, InputDeclaration)>, Seq<char>>,
    given: Seq<Pair>,
)
    ensures
        ({
            let filled = filled_fragment(path, uses, value, reads_as, declarations, given);
            &&& value is Sequence ==> filled is Err
            &&& value matches NodeView::Mapping(entries) ==> (filled is Ok <==> {
                &&& get_text(entries, "type"@) matches Some(word) && word is String
                &&& reads_as == Some(DocumentType::Fragment)
                &&& forall|i: int|
                    0 <= i < fragment_taboo().len() ==> !has_key(
                        entries,
                        #[trigger] fragment_taboo()[i],
                    )
                &&& declarations is Ok
                &&& fragment_inputs(path, declarations->Ok_0, given) is Ok
                &&& value_substituted(
                    value,
                    "inputs"@,
                    fragment_inputs(path, declarations->Ok_0, given)->Ok_0,
                    false,
                ) is Ok
            })
            &&& filled is Ok ==> filled == value_substituted(
                value,
                "inputs"@,
                fragment_inputs(path, declarations->Ok_0, given)->Ok_0,
                false,
            )
        }),
{
    if let NodeView::Mapping(entries) = value {
        lemma_taboo(
            entries,
            fragment_taboo(),
            DocumentType::Fragment,
            path,
            fragment_taboo().len(),
        );
    }
}

proof fn lemma_taboo(
    entries: Seq<EntryView>,
    sections: Seq<Seq<char>>,
    kind: DocumentType,
    path: Seq<char>,
    n: nat,
)
    requires
        n <= sections.len(),
    ensures
        taboo_error(entries, sections, kind, path, n) is None <==> forall|i: int|
            0 <= i < n ==> !has_key(entries, #[trigger] sections[i]),
    decreases n,
{
    if n > 0 {
        lemma_taboo(entries, sections, kind, path, (n - 1) as nat);
    }
}

/// What a step is, its keys tell: one that uses something takes a fragment in, one that does not
/// but archives something is an archive step, and any other runs something.
pub proof fn steps_are_told_by_their_keys(entries: Seq<EntryView>)
    ensures
        ({
            let shape = shape_of(NodeView::Mapping(entries));
            &&& has_key(entries, "uses"@) <==> shape == StepShape::Include
            &&& !has_key(entries, "uses"@) && has_key(entries, "archive"@) <==> shape
                == StepShape::Archive
            &&& !has_key(entries, "uses"@) && !has_key(entries, "archive"@) <==> shape
                == StepShape::Run
        }),
{
}

/// A document is opened as the plan that it is just if it can be read and has none of the
/// sections that such a plan may not have; opening changes nothing in it.
pub proof fn plans_are_opened_iff(path: Seq<char>, value: NodeView, entries: Seq<EntryView>)
    ensures
        test_document(path, Ok(value)) matches Ok(opened) ==> opened == value,
        build_document(path, Ok(value)) matches Ok(opened) ==> opened == value,
        value == NodeView::Mapping(entries) ==> {
            &&& test_document(path, Ok(value)) is Ok <==> !has_key(entries, "bootcmd"@) && forall|
                i: int,
            |
                0 <= i < test_taboo().len() ==> !has_key(entries, #[trigger] test_taboo()[i])
            &&& build_document(path, Ok(value)) is Ok <==> !has_key(entries, "bootcmd"@) && forall|
                i: int,
            |
                0 <= i < build_taboo().len() ==> !has_key(entries, #[trigger] build_taboo()[i])
        },
        forall|e: Seq<char>| #[trigger] test_document(path, Err(e)) is Err,
        forall|e: Seq<char>| #[trigger] build_document(path, Err(e)) is Err,
{
    lemma_taboo(entries, test_taboo(), DocumentType::Test, path, test_taboo().len());
    lemma_taboo(entries, build_taboo(), DocumentType::Build, path, build_taboo().len());
}

// ---------------------------------------------------------------------------
// Keys
// ---------------------------------------------------------------------------

/// What a document has under a key is found whether the document is tagged or not; what a
/// plugin is to check is what stands under its verb in the assertions.
pub proof fn tags_hide_nothing(
    document: NodeView,
    tag: Seq<char>,
    name: Seq<char>,
    entries: Seq<EntryView>,
    verb: Seq<char>,
)
    ensures
        crate::yaml::entry_of(NodeView::Tagged(tag, Box::new(document)), name)
            == crate::yaml::entry_of(document, name),
        crate::yaml::entry_of(NodeView::Mapping(entries), name) == get_text(entries, name),
        plugin_settings(NodeView::Mapping(entries), verb) == match get_text(entries, "assert"@) {
            Some(block) => crate::yaml::entry_of(block, verb),
            None => None,
        },
{
}

/// The value under a key is that of the first entry with the key, and there is one just if an
/// entry has the key.
pub proof fn keys_find_their_values(entries: Seq<EntryView>, key: Seq<char>, k: int)
    requires
        0 <= k < entries.len(),
    ensures
        entries[k].key == NodeView::String(key) && (forall|j: int|
            0 <= j < k ==> (#[trigger] entries[j]).key != NodeView::String(key)) ==> get_text(
            entries,
            key,
        ) == Some(entries[k].value),
        has_key(entries, key) <==> exists|j: int|
            0 <= j < entries.len() && (#[trigger] entries[j]).key == NodeView::String(key),
{
    lemma_find_key(entries, NodeView::String(key));
}

// ---------------------------------------------------------------------------
// The check against the schema
// ---------------------------------------------------------------------------

/// A setting is read without regard to case and to white space around it.
pub proof fn schema_settings_are_read(front: Seq<char>, word: Seq<char>, back: Seq<char>)
    requires
        is_white(front),
        is_white(back),
        is_trim(word),
    ensures
        schema_mode(Some(front + word + back)) == CloudInitSchemaMode::Off <==> lowered(word)
            == "off"@,
        schema_mode(Some(front + word + back)) == CloudInitSchemaMode::Strict <==> lowered(word)
            == "strict"@,
        schema_mode(None) == CloudInitSchemaMode::Warn,
{
    reveal_strlit("off");
    reveal_strlit("strict");
    assert("off"@.len() != "strict"@.len());
    trimming_takes_white_space(front, word, back);
}

/// What is at fault is an error in the strict mode, a warning in the usual one and nothing where
/// checks are off; a check that could not be made is never an error.
pub proof fn faults_are_reported(
    mode: CloudInitSchemaMode,
    path: Seq<char>,
    check: CloudInitSchemaCheck,
)
    ensures
        schema_error(mode, path, check) is Some <==> check is Invalid && mode
            == CloudInitSchemaMode::Strict,
        schema_warning(mode, path, check) is Some <==> (check is Invalid && mode
            == CloudInitSchemaMode::Warn) || (check is InvocationFailed && mode
            != CloudInitSchemaMode::Off),
{
}

/// What a program that found fault said is passed on: all of its error output first, and then
/// all of its output.
pub proof fn complaints_are_passed_on(status: Seq<char>, stdout: Seq<char>, stderr: Seq<char>)
    ensures
        ({
            let message = schema_message(status, stdout, stderr);
            &&& starts_with(message, trim(stderr))
            &&& ends_with(message, trim(stdout))
            &&& message.len() > 0
        }),
{
    reveal_strlit("cloud-init schema exited with ");
    reveal_strlit("\n");
    let out = trim(stdout);
    let err = trim(stderr);
    let message = schema_message(status, stdout, stderr);
    assert(message.take(err.len() as int) =~= err);
    assert(message.subrange(message.len() - out.len(), message.len() as int) =~= out);
}

/// What is checked of a document is the cloud-config that it holds, under a line that says what
/// it is; a document without one has nothing to check.
pub proof fn configs_are_checked(path: Seq<char>, entries: Seq<EntryView>)
    ensures
        ({
            let checked = schema_document(path, NodeView::Mapping(entries));
            match get_text(entries, "cloud_init"@) {
                Some(NodeView::Mapping(config)) => match yaml_text(NodeView::Mapping(config)) {
                    Ok(yaml) => checked == Ok::<Option<Seq<char>>, Seq<char>>(
                        Some("#cloud-config\n"@ + yaml),
                    ),
                    Err(_) => checked is Err,
                },
                None => checked == Ok::<Option<Seq<char>>, Seq<char>>(None),
                _ => true,
            }
        }),
{
}

// ---------------------------------------------------------------------------
// The order of keys
// ---------------------------------------------------------------------------

/// Texts are ordered by the first character in which they differ, and a text comes before every
/// longer one that it begins.
pub proof fn texts_are_ordered(
    common: Seq<char>,
    x: char,
    a: Seq<char>,
    y: char,
    b: Seq<char>,
)
    ensures
        x != y ==> (precedes(common + seq![x] + a, common + seq![y] + b) <==> (x as u32) < (
        y as u32)),
        precedes(common, common + seq![x] + a),
        !precedes(common + seq![x] + a, common),
        !precedes(common, common),
    decreases common.len(),
{
    let p = common + seq![x] + a;
    let q = common + seq![y] + b;
    if common.len() > 0 {
        let rest = common.skip(1);
        assert(p.skip(1) =~= rest + seq![x] + a);
        assert(q.skip(1) =~= rest + seq![y] + b);
        assert(p[0] == common[0] && q[0] == common[0]);
        texts_are_ordered(rest, x, a, y, b);
    } else {
        assert(p[0] == x && q[0] == y);
    }
}

} // verus!
