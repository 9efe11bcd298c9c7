//! Reading YAML text into document values.

use vstd::prelude::*;
use vstd::string::*;

use crate::cloud_init::{CloudInitSchemaMode, render_cloud_init_schema_document, schema_text};
use crate::document::DocumentType;
use crate::error::{PlanError, in_context};
use crate::sections::{
    bootcmd_error, build_taboo, check_no_build_sections_in_test_doc,
    check_no_test_entrypoint_sections_in_build_doc, check_no_top_level_bootcmd, sections_error,
    test_taboo,
};
use crate::strings::{cat2, same};
use crate::text::opt_text;
use crate::validate::first_error;
use crate::value::{Entry, EntryView, Node, NodeView, get, get_text, lemma_find_key, untagged};

verus! {

/// A value of the YAML reader.
#[verifier::external_type_specification]
#[verifier::external_body]
pub struct ExYamlValue(serde_yaml::Value);

/// What a value of the YAML reader holds: its scalars, items and entries, in their order.
pub uninterp spec fn yaml_contents(value: serde_yaml::Value) -> NodeView;

/// What a text holds as a YAML document, or the message that it is none.
pub uninterp spec fn yaml_document(text: Seq<char>) -> Result<NodeView, Seq<char>>;

/// Reads a YAML document.
///
/// This calls `serde_yaml::from_str` for a `serde_yaml::Value`. The contract claims that
/// what it gives back, or the message of its error, is a function of the text alone;
/// which texts are documents, and what they hold, is left to the reader.
#[verifier::external_body]
fn read_document(text: &str) -> (r: Result<serde_yaml::Value, PlanError>)
    ensures
        match r {
            Ok(value) => yaml_document(text@) == Ok::<NodeView, Seq<char>>(yaml_contents(value)),
            Err(e) => yaml_document(text@) == Err::<NodeView, Seq<char>>(e@),
        },
{
    match serde_yaml::from_str::<serde_yaml::Value>(text) {
        Ok(value) => Ok(value),
        Err(e) => Err(PlanError { message: e.to_string() }),
    }
}

/// The YAML text of a value, or the message that it has none.
pub uninterp spec fn yaml_text(contents: NodeView) -> Result<Seq<char>, Seq<char>>;

/// Writes a value as YAML.
///
/// This calls `serde_yaml::to_string`. The contract claims that the text, or the message of
/// the error, is a function of what the value holds; how a value is written is left to the
/// writer.
#[verifier::external_body]
fn write_document(value: &serde_yaml::Value) -> (r: Result<String, PlanError>)
    ensures
        match r {
            Ok(text) => yaml_text(yaml_contents(*value)) == Ok::<Seq<char>, Seq<char>>(text@),
            Err(e) => yaml_text(yaml_contents(*value)) == Err::<Seq<char>, Seq<char>>(e@),
        },
{
    match serde_yaml::to_string(value) {
        Ok(text) => Ok(text),
        Err(e) => Err(PlanError { message: e.to_string() }),
    }
}

/// The JSON text of a value, or the message that it has none.
pub uninterp spec fn json_text(contents: NodeView) -> Result<Seq<char>, Seq<char>>;

/// Writes a value as JSON.
///
/// This calls `serde_json::to_string` for a `serde_yaml::Value`. The contract claims that the
/// text, or the message of the error, is a function of what the value holds; how a value is
/// written is left to the writer.
#[verifier::external_body]
fn write_json(value: &serde_yaml::Value) -> (r: Result<String, PlanError>)
    ensures
        match r {
            Ok(text) => json_text(yaml_contents(*value)) == Ok::<Seq<char>, Seq<char>>(text@),
            Err(e) => json_text(yaml_contents(*value)) == Err::<Seq<char>, Seq<char>>(e@),
        },
{
    match serde_json::to_string(value) {
        Ok(text) => Ok(text),
        Err(e) => Err(PlanError { message: e.to_string() }),
    }
}

/// The outermost layer of a value of the YAML reader. A number is the text it renders to.
#[derive(Debug)]
pub enum YamlPart {
    Null,
    Bool(bool),
    Number(String),
    String(String),
    Sequence(Vec<serde_yaml::Value>),
    Mapping(Vec<(serde_yaml::Value, serde_yaml::Value)>),
    Tagged(String, serde_yaml::Value),
}

/// Whether `part` is the outermost layer of what `whole` models.
pub open spec fn is_layer(part: YamlPart, whole: NodeView) -> bool {
    match part {
        YamlPart::Null => whole == NodeView::Null,
        YamlPart::Bool(b) => whole == NodeView::Bool(b),
        YamlPart::Number(n) => whole == NodeView::Number(n@),
        YamlPart::String(s) => whole == NodeView::String(s@),
        YamlPart::Sequence(items) => {
            &&& whole matches NodeView::Sequence(views)
            &&& views.len() == items@.len()
            &&& forall|k: int|
                0 <= k < views.len() ==> #[trigger] views[k] == yaml_contents(items@[k])
        },
        YamlPart::Mapping(entries) => {
            &&& whole matches NodeView::Mapping(views)
            &&& views.len() == entries@.len()
            &&& forall|k: int|
                0 <= k < views.len() ==> (#[trigger] views[k]).key == yaml_contents(entries@[k].0)
                    && views[k].value == yaml_contents(entries@[k].1)
        },
        YamlPart::Tagged(tag, inner) => whole == NodeView::Tagged(
            tag@,
            Box::new(yaml_contents(inner)),
        ),
    }
}

/// Takes a value of the YAML reader apart.
///
/// This tells the variants of `serde_yaml::Value` apart. The contract claims that it
/// hands on what the value holds, one layer deep: `serde_yaml::Mapping` is walked in the
/// order of its entries, a number is rendered by `serde_yaml::Number`, and a tag by
/// `serde_yaml::value::Tag`.
#[verifier::external_body]
fn take_apart(value: serde_yaml::Value) -> (r: YamlPart)
    ensures
        is_layer(r, yaml_contents(value)),
{
    match value {
        serde_yaml::Value::Null => YamlPart::Null,
        serde_yaml::Value::Bool(b) => YamlPart::Bool(b),
        serde_yaml::Value::Number(n) => YamlPart::Number(n.to_string()),
        serde_yaml::Value::String(s) => YamlPart::String(s),
        serde_yaml::Value::Sequence(items) => YamlPart::Sequence(items),
        serde_yaml::Value::Mapping(entries) => YamlPart::Mapping(entries.into_iter().collect()),
        serde_yaml::Value::Tagged(t) => YamlPart::Tagged(t.tag.to_string(), t.value),
    }
}

/// A value of the YAML reader as a document value.
fn plain_value(value: serde_yaml::Value) -> (r: Node)
    ensures
        r@ == yaml_contents(value),
    decreases yaml_contents(value),
{
    let ghost whole = yaml_contents(value);
    match take_apart(value) {
        YamlPart::Null => Node::Null,
        YamlPart::Bool(b) => Node::Bool(b),
        YamlPart::Number(n) => Node::Number(n),
        YamlPart::String(s) => Node::String(s),
        YamlPart::Sequence(items) => {
            let ghost views = whole->Sequence_0;
            let ghost given = items@;
            let mut rest = items;
            let mut reversed: Vec<Node> = Vec::new();
            while rest.len() > 0
                invariant
                    whole == yaml_contents(value),
                    whole == NodeView::Sequence(views),
                    views.len() == given.len(),
                    forall|k: int|
                        0 <= k < views.len() ==> #[trigger] views[k] == yaml_contents(given[k]),
                    rest@.len() + reversed@.len() == given.len(),
                    rest@ == given.take(rest@.len() as int),
                    forall|k: int|
                        0 <= k < reversed@.len() ==> (#[trigger] reversed@[k])@
                            == views[given.len() - 1 - k],
                decreases rest@.len(),
            {
                let ghost n = rest@.len() as int;
                let item = rest.pop();
                if let Some(item) = item {
                    assert(item == given[n - 1]);
                    assert(views[n - 1] == yaml_contents(item));
                    assert(decreases_to!(whole => whole->Sequence_0));
                    assert(decreases_to!(whole->Sequence_0 => whole->Sequence_0[n - 1]));
                    let plain = plain_value(item);
                    reversed.push(plain);
                }
                assert(rest@ =~= given.take(n - 1));
            }
            let mut out: Vec<Node> = Vec::new();
            while reversed.len() > 0
                invariant
                    views.len() == given.len(),
                    out@.len() + reversed@.len() == given.len(),
                    forall|k: int|
                        0 <= k < reversed@.len() ==> (#[trigger] reversed@[k])@
                            == views[given.len() - 1 - k],
                    forall|k: int| 0 <= k < out@.len() ==> (#[trigger] out@[k])@ == views[k],
                decreases reversed@.len(),
            {
                let ghost n = reversed@.len() as int;
                let item = reversed.pop();
                if let Some(item) = item {
                    assert(item@ == views[given.len() - n]);
                    out.push(item);
                }
            }
            let r = Node::Sequence(out);
            assert(r@->Sequence_0 =~= views);
            r
        },
        YamlPart::Mapping(entries) => {
            let ghost views = whole->Mapping_0;
            let ghost given = entries@;
            let mut rest = entries;
            let mut reversed: Vec<Entry> = Vec::new();
            while rest.len() > 0
                invariant
                    whole == yaml_contents(value),
                    whole == NodeView::Mapping(views),
                    views.len() == given.len(),
                    forall|k: int|
                        0 <= k < views.len() ==> (#[trigger] views[k]).key == yaml_contents(
                            given[k].0,
                        ) && views[k].value == yaml_contents(given[k].1),
                    rest@.len() + reversed@.len() == given.len(),
                    rest@ == given.take(rest@.len() as int),
                    forall|k: int|
                        0 <= k < reversed@.len() ==> (#[trigger] reversed@[k])@
                            == views[given.len() - 1 - k],
                decreases rest@.len(),
            {
                let ghost n = rest@.len() as int;
                let entry = rest.pop();
                if let Some(entry) = entry {
                    assert(entry == given[n - 1]);
                    assert(views[n - 1].key == yaml_contents(entry.0));
                    assert(decreases_to!(whole => whole->Mapping_0));
                    assert(decreases_to!(whole->Mapping_0 => whole->Mapping_0[n - 1]));
                    assert(decreases_to!(whole->Mapping_0[n - 1] => whole->Mapping_0[n - 1].key));
                    assert(decreases_to!(whole->Mapping_0[n - 1] => whole->Mapping_0[n - 1].value));
                    let key = plain_value(entry.0);
                    let inner = plain_value(entry.1);
                    reversed.push(Entry { key, value: inner });
                }
                assert(rest@ =~= given.take(n - 1));
            }
            let mut out: Vec<Entry> = Vec::new();
            while reversed.len() > 0
                invariant
                    views.len() == given.len(),
                    out@.len() + reversed@.len() == given.len(),
                    forall|k: int|
                        0 <= k < reversed@.len() ==> (#[trigger] reversed@[k])@
                            == views[given.len() - 1 - k],
                    forall|k: int| 0 <= k < out@.len() ==> (#[trigger] out@[k])@ == views[k],
                decreases reversed@.len(),
            {
                let ghost n = reversed@.len() as int;
                let entry = reversed.pop();
                if let Some(entry) = entry {
                    assert(entry@ == views[given.len() - n]);
                    out.push(entry);
                }
            }
            let r = Node::Mapping(out);
            assert(r@->Mapping_0 =~= views);
            r
        },
        YamlPart::Tagged(tag, inner) => {
            assert(decreases_to!(whole => *whole->Tagged_1));
            let plain = plain_value(inner);
            Node::Tagged(tag, Box::new(plain))
        },
    }
}

/// Reads a YAML document.
pub fn parse_yaml(text: &str) -> (r: Result<Node, PlanError>)
    ensures
        match r {
            Ok(value) => yaml_document(text@) == Ok::<NodeView, Seq<char>>(value@),
            Err(e) => yaml_document(text@) == Err::<NodeView, Seq<char>>(e@),
        },
{
    match read_document(text) {
        Ok(value) => Ok(plain_value(value)),
        Err(e) => Err(e),
    }
}

/// The document of a test, once it was read, or why it is refused before anything else
/// is made of it.
pub open spec fn test_document(path: Seq<char>, read: Result<NodeView, Seq<char>>) -> Result<
    NodeView,
    Seq<char>,
> {
    match read {
        Err(e) => Err(in_context("invalid test config: "@ + path, e)),
        Ok(value) => match first_error(
            sections_error(value, test_taboo(), DocumentType::Test, path),
            bootcmd_error(value, path),
        ) {
            Some(e) => Err(e),
            None => Ok(value),
        },
    }
}

/// Judges the document of a test that was read.
pub fn check_test_document(path: &str, read: Result<Node, PlanError>) -> (r: Result<
    Node,
    PlanError,
>)
    ensures
        match r {
            Ok(value) => test_document(path@, document_view(read)) == Ok::<NodeView, Seq<char>>(
                value@,
            ),
            Err(e) => test_document(path@, document_view(read)) == Err::<NodeView, Seq<char>>(e@),
        },
{
    let value = match read {
        Ok(value) => value,
        Err(e) => {
            let context = cat2("invalid test config: ", path);
            return Err(e.within(context.as_str()));
        },
    };
    if let Err(e) = check_no_build_sections_in_test_doc(path, &value) {
        return Err(e);
    }
    if let Err(e) = check_no_top_level_bootcmd(path, &value) {
        return Err(e);
    }
    Ok(value)
}

/// A reading of a document, in the terms of the model.
pub open spec fn document_view(read: Result<Node, PlanError>) -> Result<NodeView, Seq<char>> {
    match read {
        Ok(value) => Ok(value@),
        Err(e) => Err(e@),
    }
}

/// Reads the document of a test.
pub fn read_test_document(path: &str, yaml: &str) -> (r: Result<Node, PlanError>)
    ensures
        match r {
            Ok(value) => test_document(path@, yaml_document(yaml@)) == Ok::<NodeView, Seq<char>>(
                value@,
            ),
            Err(e) => test_document(path@, yaml_document(yaml@)) == Err::<NodeView, Seq<char>>(
                e@,
            ),
        },
{
    let read = parse_yaml(yaml);
    check_test_document(path, read)
}

/// The document of a build, once it was read, or why it is refused before anything else
/// is made of it.
pub open spec fn build_document(path: Seq<char>, read: Result<NodeView, Seq<char>>) -> Result<
    NodeView,
    Seq<char>,
> {
    match read {
        Err(e) => Err(in_context("invalid build config: "@ + path, e)),
        Ok(value) => match first_error(
            sections_error(value, build_taboo(), DocumentType::Build, path),
            bootcmd_error(value, path),
        ) {
            Some(e) => Err(e),
            None => Ok(value),
        },
    }
}

/// Judges the document of a build that was read.
pub fn check_build_document(path: &str, read: Result<Node, PlanError>) -> (r: Result<
    Node,
    PlanError,
>)
    ensures
        match r {
            Ok(value) => build_document(path@, document_view(read)) == Ok::<NodeView, Seq<char>>(
                value@,
            ),
            Err(e) => build_document(path@, document_view(read)) == Err::<NodeView, Seq<char>>(
                e@,
            ),
        },
{
    let value = match read {
        Ok(value) => value,
        Err(e) => {
            let context = cat2("invalid build config: ", path);
            return Err(e.within(context.as_str()));
        },
    };
    if let Err(e) = check_no_test_entrypoint_sections_in_build_doc(path, &value) {
        return Err(e);
    }
    if let Err(e) = check_no_top_level_bootcmd(path, &value) {
        return Err(e);
    }
    Ok(value)
}

/// Reads the document of a build.
pub fn read_build_document(path: &str, yaml: &str) -> (r: Result<Node, PlanError>)
    ensures
        match r {
            Ok(value) => build_document(path@, yaml_document(yaml@)) == Ok::<NodeView, Seq<char>>(
                value@,
            ),
            Err(e) => build_document(path@, yaml_document(yaml@)) == Err::<NodeView, Seq<char>>(
                e@,
            ),
        },
{
    let read = parse_yaml(yaml);
    check_build_document(path, read)
}

/// Judges a document of included steps that was read.
pub fn check_fragment_document(path: &str, read: Result<Node, PlanError>) -> (r: Result<
    Node,
    PlanError,
>)
    ensures
        match read {
            Ok(value) => r matches Ok(v) && v@ == value@,
            Err(e) => r matches Err(f) && f@ == in_context(
                "invalid test step include: "@ + path@,
                e@,
            ),
        },
{
    match read {
        Ok(value) => Ok(value),
        Err(e) => {
            let context = cat2("invalid test step include: ", path);
            Err(e.within(context.as_str()))
        },
    }
}

/// Reads a document of included steps.
pub fn read_fragment_document(path: &str, yaml: &str) -> (r: Result<Node, PlanError>)
    ensures
        match yaml_document(yaml@) {
            Ok(value) => r matches Ok(v) && v@ == value,
            Err(e) => r matches Err(f) && f@ == in_context(
                "invalid test step include: "@ + path@,
                e,
            ),
        },
{
    let read = parse_yaml(yaml);
    check_fragment_document(path, read)
}

// ---------------------------------------------------------------------------
// Parts of a document
// ---------------------------------------------------------------------------

/// The value of a key of a document that holds entries, tagged or not.
pub open spec fn entry_of(document: NodeView, name: Seq<char>) -> Option<NodeView> {
    match untagged(document) {
        NodeView::Mapping(entries) => get_text(entries, name),
        _ => None,
    }
}

/// Takes the value of a key out of entries.
fn take_entry(
    entries: Vec<(serde_yaml::Value, serde_yaml::Value)>,
    name: &str,
    Ghost(views): Ghost<Seq<EntryView>>,
) -> (r: Option<serde_yaml::Value>)
    requires
        views.len() == entries@.len(),
        forall|k: int|
            0 <= k < views.len() ==> (#[trigger] views[k]).key == yaml_contents(entries@[k].0)
                && views[k].value == yaml_contents(entries@[k].1),
    ensures
        match r {
            Some(value) => get_text(views, name@) == Some(yaml_contents(value)),
            None => get_text(views, name@) is None,
        },
{
    let ghost key = NodeView::String(name@);
    let ghost given = entries@;
    let mut rest = entries;
    let mut found: Option<serde_yaml::Value> = None;
    assert(views.skip(given.len() as int) =~= Seq::<EntryView>::empty());
    while rest.len() > 0
        invariant
            key == NodeView::String(name@),
            views.len() == given.len(),
            forall|k: int|
                0 <= k < views.len() ==> (#[trigger] views[k]).key == yaml_contents(given[k].0)
                    && views[k].value == yaml_contents(given[k].1),
            rest@.len() <= given.len(),
            rest@ == given.take(rest@.len() as int),
            match found {
                Some(value) => get(views.skip(rest@.len() as int), key) == Some(
                    yaml_contents(value),
                ),
                None => get(views.skip(rest@.len() as int), key) is None,
            },
        decreases rest@.len(),
    {
        let ghost n = rest@.len() as int;
        let entry = rest.pop();
        proof {
            let before = views.skip(n - 1);
            assert(before.skip(1) =~= views.skip(n));
            assert(before[0] == views[n - 1]);
            lemma_find_key(before.skip(1), key);
        }
        if let Some(entry) = entry {
            assert(entry == given[n - 1]);
            let given_key = plain_value(entry.0);
            let wanted = match &given_key {
                Node::String(s) => same(s.as_str(), name),
                _ => false,
            };
            if wanted {
                found = Some(entry.1);
            }
        }
        assert(rest@ =~= given.take(n - 1));
    }
    assert(views.skip(0) =~= views);
    found
}

/// Takes the value of a key out of a value that holds entries, tagged or not.
fn take_member(value: serde_yaml::Value, name: &str) -> (r: Option<serde_yaml::Value>)
    ensures
        match r {
            Some(member) => entry_of(yaml_contents(value), name@) == Some(yaml_contents(member)),
            None => entry_of(yaml_contents(value), name@) is None,
        },
    decreases yaml_contents(value),
{
    let ghost whole = yaml_contents(value);
    match take_apart(value) {
        YamlPart::Mapping(entries) => take_entry(entries, name, Ghost(whole->Mapping_0)),
        YamlPart::Tagged(_, inner) => {
            assert(decreases_to!(whole => *whole->Tagged_1));
            take_member(inner, name)
        },
        _ => None,
    }
}

// ---------------------------------------------------------------------------
// The cloud-config of a document
// ---------------------------------------------------------------------------

/// The cloud-config of a document as the text that is checked against the schema, or why it
/// has none. A document without a cloud-config has nothing to check.
pub open spec fn schema_document(path: Seq<char>, document: NodeView) -> Result<
    Option<Seq<char>>,
    Seq<char>,
> {
    match entry_of(document, "cloud_init"@) {
        Some(config) => match untagged(config) {
            NodeView::Mapping(entries) => match schema_text(
                yaml_text(NodeView::Mapping(entries)),
            ) {
                Ok(text) => Ok(Some(text)),
                Err(e) => Err(in_context("failed to render cloud_init document in "@ + path, e)),
            },
            _ => Ok(None),
        },
        None => Ok(None),
    }
}

/// Writes a value that holds entries as YAML, without the tags around it.
fn write_entries(value: serde_yaml::Value) -> (r: Option<Result<String, PlanError>>)
    ensures
        match untagged(yaml_contents(value)) {
            NodeView::Mapping(entries) => match r {
                Some(Ok(text)) => yaml_text(NodeView::Mapping(entries)) == Ok::<
                    Seq<char>,
                    Seq<char>,
                >(text@),
                Some(Err(e)) => yaml_text(NodeView::Mapping(entries)) == Err::<
                    Seq<char>,
                    Seq<char>,
                >(e@),
                None => false,
            },
            _ => r is None,
        },
    decreases yaml_contents(value),
{
    let ghost whole = yaml_contents(value);
    let written = write_document(&value);
    match take_apart(value) {
        YamlPart::Mapping(_) => Some(written),
        YamlPart::Tagged(_, inner) => {
            assert(decreases_to!(whole => *whole->Tagged_1));
            write_entries(inner)
        },
        _ => None,
    }
}

/// The cloud-config of the document in a YAML text, as the text that is checked against the
/// schema; nothing if the schema does not count.
pub fn cloud_init_schema_document(mode: CloudInitSchemaMode, path: &str, yaml: &str) -> (r: Result<
    Option<String>,
    PlanError,
>)
    ensures
        mode == CloudInitSchemaMode::Off ==> (r matches Ok(text) && text is None),
        mode != CloudInitSchemaMode::Off ==> match yaml_document(yaml@) {
            Ok(document) => match r {
                Ok(text) => schema_document(path@, document) == Ok::<
                    Option<Seq<char>>,
                    Seq<char>,
                >(opt_text(text)),
                Err(e) => schema_document(path@, document) == Err::<Option<Seq<char>>, Seq<char>>(
                    e@,
                ),
            },
            Err(e) => r matches Err(f) && f@ == e,
        },
{
    match mode {
        CloudInitSchemaMode::Off => {
            return Ok(None);
        },
        _ => {},
    }
    let document = match read_document(yaml) {
        Ok(document) => document,
        Err(e) => {
            return Err(e);
        },
    };
    let value = match take_member(document, "cloud_init") {
        Some(value) => value,
        None => {
            return Ok(None);
        },
    };
    let written = match write_entries(value) {
        Some(written) => written,
        None => {
            return Ok(None);
        },
    };
    match render_cloud_init_schema_document(written) {
        Ok(text) => Ok(Some(text)),
        Err(e) => {
            let context = cat2("failed to render cloud_init document in ", path);
            Err(e.within(context.as_str()))
        },
    }
}

// ---------------------------------------------------------------------------
// The settings of plugin assertions
// ---------------------------------------------------------------------------

/// The settings of a plugin assertion in a document: the value of its verb under `assert`.
pub open spec fn plugin_settings(document: NodeView, verb: Seq<char>) -> Option<NodeView> {
    match entry_of(document, "assert"@) {
        Some(block) => entry_of(block, verb),
        None => None,
    }
}

/// The settings of a plugin assertion in the document in a YAML text, as JSON. A document
/// that does not hold the assertion has none.
pub fn plugin_settings_json(yaml: &str, verb: &str) -> (r: Result<Option<String>, PlanError>)
    ensures
        match yaml_document(yaml@) {
            Err(e) => r matches Err(f) && f@ == e,
            Ok(document) => match plugin_settings(document, verb@) {
                None => r matches Ok(text) && text is None,
                Some(settings) => match json_text(settings) {
                    Ok(json) => r matches Ok(text) && opt_text(text) == Some(json),
                    Err(e) => r matches Err(f) && f@ == e,
                },
            },
        },
{
    let document = match read_document(yaml) {
        Ok(document) => document,
        Err(e) => {
            return Err(e);
        },
    };
    let block = match take_member(document, "assert") {
        Some(block) => block,
        None => {
            return Ok(None);
        },
    };
    match take_member(block, verb) {
        Some(settings) => match write_json(&settings) {
            Ok(text) => Ok(Some(text)),
            Err(e) => Err(e),
        },
        None => Ok(None),
    }
}

} // verus!
