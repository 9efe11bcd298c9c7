//! The cloud-config of a plan: merging, guarding, and checking against its schema.

use vstd::prelude::*;
use vstd::string::*;

use crate::error::{PlanError, in_context, outcome};
use crate::numbers::{lowered, to_lower};
use crate::outputs::read_view;
use crate::strings::{cat2, cat3, cat4, same, trimmed};
use crate::text::{opt_slice, opt_text, trim};
use crate::value::{
    Entry, EntryView, Node, NodeView, entry_views, find_key, get, get_text, has_key,
    index_of_key, lemma_find_key, lemma_key_is, lemma_mapping_view, lemma_sequence_view,
    text_entry, value_views,
};

verus! {

// ---------------------------------------------------------------------------
// Merging
// ---------------------------------------------------------------------------

/// A value with another laid over it: sequences are joined, mappings are merged, and
/// of anything else the overlay stays.
pub open spec fn merged_value(base: NodeView, overlay: NodeView) -> NodeView
    decreases overlay, 0nat,
{
    match (base, overlay) {
        (NodeView::Sequence(b), NodeView::Sequence(o)) => NodeView::Sequence(b + o),
        (NodeView::Mapping(b), NodeView::Mapping(o)) => NodeView::Mapping(
            merged_entries(b, o, o.len()),
        ),
        _ => overlay,
    }
}

/// A mapping with the first `n` entries of another laid over it.
pub open spec fn merged_entries(
    base: Seq<EntryView>,
    overlay: Seq<EntryView>,
    n: nat,
) -> Seq<EntryView>
    decreases overlay, n,
{
    if n == 0 || n > overlay.len() {
        base
    } else {
        let so_far = merged_entries(base, overlay, (n - 1) as nat);
        let e = overlay[n - 1];
        match find_key(so_far, e.key) {
            None => so_far.push(e),
            Some(k) => so_far.update(
                k,
                EntryView { key: so_far[k].key, value: merged_value(so_far[k].value, e.value) },
            ),
        }
    }
}

fn clone_values(items: &Vec<Node>, out: &mut Vec<Node>)
    ensures
        value_views(final(out)@) == value_views(old(out)@) + value_views(items@),
{
    let ghost had = value_views(out@);
    let ghost all = value_views(items@);
    let mut i: usize = 0;
    assert(had + all.take(0) =~= had);
    while i < items.len()
        invariant
            i <= items@.len(),
            all == value_views(items@),
            value_views(out@) == had + all.take(i as int),
        decreases items@.len() - i,
    {
        let ghost so_far = value_views(out@);
        let item = items[i].clone();
        out.push(item);
        assert(value_views(out@) =~= so_far.push(item@));
        assert(all[i as int] == item@);
        assert(value_views(out@) =~= had + all.take(i + 1));
        i += 1;
    }
    assert(all.take(i as int) =~= all);
}

fn clone_entries(entries: &Vec<Entry>) -> (r: Vec<Entry>)
    ensures
        entry_views(r@) == entry_views(entries@),
{
    let mut r: Vec<Entry> = Vec::new();
    let ghost all = entry_views(entries@);
    let mut i: usize = 0;
    assert(entry_views(r@) =~= all.take(0));
    while i < entries.len()
        invariant
            i <= entries@.len(),
            all == entry_views(entries@),
            entry_views(r@) == all.take(i as int),
        decreases entries@.len() - i,
    {
        let ghost so_far = entry_views(r@);
        let entry = Entry { key: entries[i].key.clone(), value: entries[i].value.clone() };
        r.push(entry);
        assert(entry_views(r@) =~= so_far.push(entry@));
        assert(all[i as int] == entry@);
        assert(entry_views(r@) =~= all.take(i + 1));
        i += 1;
    }
    assert(all.take(i as int) =~= all);
    r
}

fn merge_values(base: &Node, overlay: &Node) -> (r: Node)
    ensures
        r@ == merged_value(base@, overlay@),
    decreases overlay, 0nat,
{
    match (base, overlay) {
        (Node::Sequence(b), Node::Sequence(o)) => {
            proof {
                lemma_sequence_view(*b);
                lemma_sequence_view(*o);
            }
            let mut out: Vec<Node> = Vec::new();
            clone_values(b, &mut out);
            clone_values(o, &mut out);
            assert(value_views(out@) =~= value_views(b@) + value_views(o@));
            proof {
                lemma_sequence_view(out);
            }
            Node::Sequence(out)
        },
        (Node::Mapping(b), Node::Mapping(o)) => {
            proof {
                lemma_mapping_view(*b);
                lemma_mapping_view(*o);
            }
            let merged = merge_entries(clone_entries(b), o);
            proof {
                lemma_mapping_view(merged);
            }
            Node::Mapping(merged)
        },
        _ => overlay.clone(),
    }
}

fn merge_entries(base: Vec<Entry>, overlay: &Vec<Entry>) -> (r: Vec<Entry>)
    ensures
        entry_views(r@) == merged_entries(
            entry_views(base@),
            entry_views(overlay@),
            overlay@.len(),
        ),
    decreases overlay@, 1nat,
{
    let ghost bs = entry_views(base@);
    let ghost os = entry_views(overlay@);
    let mut result = base;
    let mut i: usize = 0;
    while i < overlay.len()
        invariant
            i <= overlay@.len(),
            os == entry_views(overlay@),
            entry_views(result@) == merged_entries(bs, os, i as nat),
        decreases overlay@.len() - i,
    {
        let ghost so_far = entry_views(result@);
        let ghost e = os[i as int];
        assert(e == overlay@[i as int]@);
        match index_of_key(&result, &overlay[i].key) {
            None => {
                result.push(
                    Entry { key: overlay[i].key.clone(), value: overlay[i].value.clone() },
                );
                assert(entry_views(result@) =~= so_far.push(e));
            },
            Some(k) => {
                let value = merge_values(&result[k].value, &overlay[i].value);
                let key = result[k].key.clone();
                let ghost new = EntryView { key: key@, value: value@ };
                result.set(k, Entry { key, value });
                assert(entry_views(result@) =~= so_far.update(k as int, new));
            },
        }
        i += 1;
    }
    result
}

/// Merges two cloud-configs: sequences are joined with those of `base` first,
/// mappings are merged, and of anything else `overlay` wins.
pub fn merge_cloud_init_mappings(base: Vec<Entry>, overlay: Vec<Entry>) -> (r: Vec<Entry>)
    ensures
        entry_views(r@) == merged_entries(
            entry_views(base@),
            entry_views(overlay@),
            overlay@.len(),
        ),
{
    merge_entries(base, &overlay)
}

/// The keys of a mapping, in order.
pub open spec fn key_views(entries: Seq<EntryView>) -> Seq<NodeView> {
    entries.map_values(|e: EntryView| e.key)
}

/// What a key has in a merged mapping.
pub open spec fn merged_lookup(
    base: Option<NodeView>,
    overlay: Option<NodeView>,
) -> Option<NodeView> {
    match (base, overlay) {
        (Some(b), Some(o)) => Some(merged_value(b, o)),
        (Some(b), None) => Some(b),
        (None, o) => o,
    }
}

/// A merge keeps the order of the keys that were there, and puts new keys behind.
pub proof fn merge_keeps_base_keys(base: Seq<EntryView>, overlay: Seq<EntryView>, n: nat)
    requires
        n <= overlay.len(),
    ensures
        key_views(base).is_prefix_of(key_views(merged_entries(base, overlay, n))),
    decreases n,
{
    if n == 0 {
        assert(key_views(base) =~= key_views(base).take(key_views(base).len() as int));
    } else {
        merge_keeps_base_keys(base, overlay, (n - 1) as nat);
        let so_far = merged_entries(base, overlay, (n - 1) as nat);
        let e = overlay[n - 1];
        lemma_find_key(so_far, e.key);
        let after = key_views(merged_entries(base, overlay, n));
        match find_key(so_far, e.key) {
            None => {
                assert(after =~= key_views(so_far).push(e.key));
                assert(after.take(key_views(base).len() as int) =~= key_views(so_far).take(
                    key_views(base).len() as int,
                ));
            },
            Some(k) => {
                assert(after =~= key_views(so_far));
            },
        }
    }
}

/// What a merge gives for each key: with the key in both mappings their values
/// merged, else the value of the mapping that has it.
pub proof fn merge_by_key(
    base: Seq<EntryView>,
    overlay: Seq<EntryView>,
    n: nat,
    key: NodeView,
)
    requires
        n <= overlay.len(),
        key_views(overlay).no_duplicates(),
    ensures
        get(merged_entries(base, overlay, n), key) == merged_lookup(
            get(base, key),
            get(overlay.take(n as int), key),
        ),
    decreases n,
{
    let front = overlay.take(n as int);
    if n == 0 {
        assert(front =~= seq![]);
    } else {
        let prev = overlay.take(n - 1);
        merge_by_key(base, overlay, (n - 1) as nat, key);
        let so_far = merged_entries(base, overlay, (n - 1) as nat);
        let e = overlay[n - 1];
        lemma_find_key(so_far, e.key);
        lemma_find_key(so_far, key);
        lemma_find_key(prev, key);
        lemma_find_key(front, key);
        let after = merged_entries(base, overlay, n);
        // The new key stands nowhere before among the overlay's keys.
        assert(find_key(prev, e.key) is None) by {
            lemma_find_key(prev, e.key);
            if let Some(j) = find_key(prev, e.key) {
                assert(key_views(overlay)[j] == overlay[j].key);
                assert(key_views(overlay)[n - 1] == e.key);
                assert(prev[j] == overlay[j]);
            }
        }
        if key == e.key {
            assert forall|j: int| 0 <= j < n - 1 implies (#[trigger] front[j]).key != key by {
                assert(prev[j] == front[j]);
                lemma_find_key(prev, key);
                assert(prev[j].key != key);
            }
            lemma_key_is(front, key, n - 1);
            merge_by_key(base, overlay, (n - 1) as nat, e.key);
            match find_key(so_far, e.key) {
                None => {
                    assert forall|j: int| 0 <= j < so_far.len() implies (#[trigger] after[j]).key
                        != key by {
                        assert(so_far[j].key != key);
                    }
                    lemma_key_is(after, key, so_far.len() as int);
                },
                Some(k) => {
                    assert forall|j: int| 0 <= j < k implies (#[trigger] after[j]).key != key by {
                        assert(so_far[j].key != key);
                    }
                    lemma_key_is(after, key, k);
                },
            }
        } else {
            // Another key keeps its value.
            assert(get(front, key) == get(prev, key)) by {
                match find_key(prev, key) {
                    Some(j) => {
                        assert forall|i: int| 0 <= i < j implies (#[trigger] front[i]).key
                            != key by {
                            assert(prev[i].key != key);
                        }
                        assert(front[j] == prev[j]);
                        lemma_key_is(front, key, j);
                    },
                    None => {
                        if let Some(j) = find_key(front, key) {
                            if j < n - 1 {
                                assert(prev[j].key != key);
                            }
                        }
                    },
                }
            }
            assert(get(after, key) == get(so_far, key)) by {
                lemma_find_key(after, key);
                match find_key(so_far, key) {
                    Some(j) => {
                        assert forall|i: int| 0 <= i < j implies (#[trigger] after[i]).key
                            != key by {
                            assert(so_far[i].key != key);
                        }
                        assert(after[j].key == key);
                        lemma_key_is(after, key, j);
                    },
                    None => {
                        if let Some(j) = find_key(after, key) {
                            if j < so_far.len() {
                                assert(so_far[j].key != key);
                            }
                        }
                    },
                }
            }
        }
    }
}

/// What stands in a value below the keys of a path.
pub open spec fn at_path(value: NodeView, path: Seq<NodeView>) -> Option<NodeView>
    decreases path.len(),
{
    if path.len() == 0 {
        Some(value)
    } else {
        match value {
            NodeView::Mapping(entries) => match get(entries, path[0]) {
                Some(inner) => at_path(inner, path.skip(1)),
                None => None,
            },
            _ => None,
        }
    }
}

/// Whether nothing but mappings stands in a value on the way of a path.
pub open spec fn is_open_to(value: NodeView, path: Seq<NodeView>) -> bool
    decreases path.len(),
{
    path.len() > 0 ==> match value {
        NodeView::Mapping(entries) => match get(entries, path[0]) {
            Some(inner) => is_open_to(inner, path.skip(1)),
            None => true,
        },
        _ => false,
    }
}

/// Whether no mapping in a value, at any depth, has a key twice.
pub open spec fn has_distinct_keys(value: NodeView) -> bool {
    forall|path: Seq<NodeView>|
        (#[trigger] at_path(value, path)) matches Some(NodeView::Mapping(entries)) ==> key_views(
            entries,
        ).no_duplicates()
}

proof fn lemma_inner_keys(entries: Seq<EntryView>, key: NodeView)
    requires
        has_distinct_keys(NodeView::Mapping(entries)),
        get(entries, key) is Some,
    ensures
        key_views(entries).no_duplicates(),
        has_distinct_keys(get(entries, key)->0),
{
    let whole = NodeView::Mapping(entries);
    let inner = get(entries, key)->0;
    let none = Seq::<NodeView>::empty();
    assert(at_path(whole, none) == Some(whole));
    assert forall|path: Seq<NodeView>|
        (#[trigger] at_path(inner, path)) matches Some(NodeView::Mapping(es)) implies key_views(
        (at_path(inner, path)->0)->Mapping_0,
    ).no_duplicates() by {
        let longer = seq![key] + path;
        assert(longer.skip(1) =~= path);
        assert(at_path(whole, longer) == at_path(inner, path));
    }
}

/// What a merge holds, at every depth. A scalar of the overlay stands where the overlay has it.
/// Where both have sequences, those of the base come first and those of the overlay follow.
/// What only the base has stays, unless the overlay puts something else than a mapping above it.
/// What only the overlay has is there.
pub proof fn merges_hold_both(base: NodeView, overlay: NodeView, path: Seq<NodeView>)
    requires
        has_distinct_keys(overlay),
    ensures
        at_path(overlay, path) matches Some(v) ==> !(v is Mapping) && !(v is Sequence) ==> at_path(
            merged_value(base, overlay),
            path,
        ) == Some(v),
        at_path(base, path) matches Some(NodeView::Sequence(b)) ==> at_path(
            overlay,
            path,
        ) matches Some(NodeView::Sequence(o)) ==> at_path(merged_value(base, overlay), path)
            == Some(NodeView::Sequence(b + o)),
        at_path(overlay, path) is None && is_open_to(overlay, path) && base is Mapping ==> at_path(
            merged_value(base, overlay),
            path,
        ) == at_path(base, path),
        at_path(base, path) is None ==> at_path(merged_value(base, overlay), path) == at_path(
            overlay,
            path,
        ),
        at_path(base, path) matches Some(NodeView::Mapping(_)) ==> at_path(
            overlay,
            path,
        ) matches Some(NodeView::Mapping(_)) ==> at_path(
            merged_value(base, overlay),
            path,
        ) matches Some(NodeView::Mapping(_)),
    decreases path.len(),
{
    let merged = merged_value(base, overlay);
    match (base, overlay) {
        (NodeView::Mapping(b), NodeView::Mapping(o)) => {
            if path.len() > 0 {
                let key = path[0];
                let rest = path.skip(1);
                assert(at_path(overlay, Seq::<NodeView>::empty()) == Some(overlay));
                merge_by_key(b, o, o.len(), key);
                assert(o.take(o.len() as int) =~= o);
                if let (Some(x), Some(y)) = (get(b, key), get(o, key)) {
                    lemma_inner_keys(o, key);
                    merges_hold_both(x, y, rest);
                    if !(x is Mapping) && rest.len() > 0 {
                        assert(at_path(x, rest) is None);
                    }
                }
            }
        },
        _ => {},
    }
}

/// The keys of a merged mapping are those of both mappings, and a key that only one of them has
/// keeps its value.
pub proof fn merged_keys_are_those_of_both(
    base: Seq<EntryView>,
    overlay: Seq<EntryView>,
    key: NodeView,
)
    requires
        key_views(overlay).no_duplicates(),
    ensures
        ({
            let merged = merged_entries(base, overlay, overlay.len());
            &&& get(merged, key) is Some <==> get(base, key) is Some || get(overlay, key) is Some
            &&& get(overlay, key) is None ==> get(merged, key) == get(base, key)
            &&& get(base, key) is None ==> get(merged, key) == get(overlay, key)
            &&& get(base, key) matches Some(NodeView::Sequence(b)) ==> get(
                overlay,
                key,
            ) matches Some(NodeView::Sequence(o)) ==> get(merged, key) == Some(
                NodeView::Sequence(b + o),
            )
            &&& get(base, key) matches Some(NodeView::Mapping(b)) ==> get(
                overlay,
                key,
            ) matches Some(NodeView::Mapping(o)) ==> get(merged, key) matches Some(
                NodeView::Mapping(m),
            ) && key_views(b).is_prefix_of(key_views(m))
        }),
{
    merge_by_key(base, overlay, overlay.len(), key);
    assert(overlay.take(overlay.len() as int) =~= overlay);
    if let (Some(NodeView::Mapping(b)), Some(NodeView::Mapping(o))) = (
        get(base, key),
        get(overlay, key),
    ) {
        merge_keeps_base_keys(b, o, o.len());
    }
}

// ---------------------------------------------------------------------------
// Guards
// ---------------------------------------------------------------------------

/// Whether one of the first `n` files to write is taken from somewhere else.
pub open spec fn names_source(files: Seq<NodeView>, n: nat) -> bool
    decreases n,
{
    if n == 0 {
        false
    } else {
        names_source(files, (n - 1) as nat) || match files[n - 1] {
            NodeView::Mapping(fields) => has_key(fields, "source"@),
            _ => false,
        }
    }
}

/// Why a cloud-config is refused: a file that it writes names a source, or it
/// switches passwords off for ssh.
pub open spec fn cloud_init_error(cloud_init: Seq<EntryView>, path: Seq<char>) -> Option<
    Seq<char>,
> {
    if get_text(cloud_init, "write_files"@) matches Some(NodeView::Sequence(files))
        && names_source(files, files.len()) {
        Some(
            "cloud_init.write_files: 'source:' is not allowed in "@ + path
                + " (ingress guard: use 'files:' for host→guest file transfer; inline 'content:' is allowed)"@,
        )
    } else if get_text(cloud_init, "ssh_pwauth"@) == Some(NodeView::Bool(false)) {
        Some(
            "cloud_init.ssh_pwauth: false is not allowed in "@ + path
                + " (harness guard: setting ssh_pwauth false may break botforge's key-based SSH access to the runner VM)"@,
        )
    } else {
        None
    }
}

fn some_file_names_source(files: &Vec<Node>) -> (r: bool)
    ensures
        r == names_source(value_views(files@), files@.len()),
{
    let ghost all = value_views(files@);
    let mut found = false;
    let mut i: usize = 0;
    while i < files.len()
        invariant
            i <= files@.len(),
            all == value_views(files@),
            found == names_source(all, i as nat),
        decreases files@.len() - i,
    {
        assert(all[i as int] == files@[i as int]@);
        let here = match &files[i] {
            Node::Mapping(fields) => {
                proof {
                    lemma_mapping_view(*fields);
                }
                text_entry(fields, "source").is_some()
            },
            _ => false,
        };
        found = found || here;
        i += 1;
    }
    found
}

/// Accepts a cloud-config that takes nothing from the host and leaves the way into
/// the guest open.
pub fn validate_cloud_init_fragment(cloud_init: &Vec<Entry>, path: &str) -> (r: Result<
    (),
    PlanError,
>)
    ensures
        outcome(r, cloud_init_error(entry_views(cloud_init@), path@)),
{
    if let Some(Node::Sequence(files)) = text_entry(cloud_init, "write_files") {
        proof {
            lemma_sequence_view(*files);
        }
        if some_file_names_source(files) {
            return Err(
                PlanError::new(
                    cat3(
                        "cloud_init.write_files: 'source:' is not allowed in ",
                        path,
                        " (ingress guard: use 'files:' for host→guest file transfer; inline 'content:' is allowed)",
                    ),
                ),
            );
        }
    }
    if let Some(Node::Bool(pwauth)) = text_entry(cloud_init, "ssh_pwauth") {
        if !*pwauth {
            return Err(
                PlanError::new(
                    cat3(
                        "cloud_init.ssh_pwauth: false is not allowed in ",
                        path,
                        " (harness guard: setting ssh_pwauth false may break botforge's key-based SSH access to the runner VM)",
                    ),
                ),
            );
        }
    }
    Ok(())
}

// ---------------------------------------------------------------------------
// The schema
// ---------------------------------------------------------------------------

/// How much the schema of a cloud-config counts.
#[derive(Clone, Copy, Debug, PartialEq, Eq, Structural)]
pub enum CloudInitSchemaMode {
    /// It is not checked.
    Off,
    /// A violation is a warning.
    Warn,
    /// A violation is an error.
    Strict,
}

/// The mode that a setting asks for: `Warn` unless it says `off` or `strict`.
pub open spec fn schema_mode(setting: Option<Seq<char>>) -> CloudInitSchemaMode {
    match setting {
        Some(raw) => {
            let word = lowered(trim(raw));
            if word == "off"@ {
                CloudInitSchemaMode::Off
            } else if word == "strict"@ {
                CloudInitSchemaMode::Strict
            } else {
                CloudInitSchemaMode::Warn
            }
        },
        None => CloudInitSchemaMode::Warn,
    }
}

/// The mode that a setting asks for: `Warn` unless it says `off` or `strict`.
pub fn cloud_init_schema_mode(setting: Option<&str>) -> (r: CloudInitSchemaMode)
    ensures
        r == schema_mode(opt_slice(setting)),
{
    match setting {
        Some(raw) => {
            let t = trimmed(raw);
            let word = to_lower(t.as_str());
            if same(word.as_str(), "off") {
                CloudInitSchemaMode::Off
            } else if same(word.as_str(), "strict") {
                CloudInitSchemaMode::Strict
            } else {
                CloudInitSchemaMode::Warn
            }
        },
        None => CloudInitSchemaMode::Warn,
    }
}

/// What checking a cloud-config against its schema gave.
#[derive(Debug, PartialEq, Eq)]
pub enum CloudInitSchemaCheck {
    Pass,
    /// There is no program to check with.
    MissingBinary,
    /// The program could not be run, for this reason.
    InvocationFailed(String),
    /// The program found fault, and said this.
    Invalid(String),
}

/// What is known on the way to a schema check.
#[derive(Debug)]
pub enum SchemaEvent {
    /// Whether there is a program to check with.
    Located(bool),
    /// What it gave when the document was written to its input.
    Stdin(Result<CloudInitSchemaCheck, String>),
    /// What it gave when the document was in a file.
    TempFile(Result<CloudInitSchemaCheck, String>),
}

/// What is to be done next on the way to a schema check.
#[derive(Debug)]
pub enum SchemaAction {
    /// Write the document to the program's input.
    RunStdin,
    /// Put the document in a file for the program.
    RunTempFile,
    /// Nothing: this is the outcome.
    Done(CloudInitSchemaCheck),
}

/// Goes on with a schema check: the document is written to the program's input, and
/// if that does not pass it is put in a file, whose outcome counts.
pub fn run_cloud_init_schema_check(event: SchemaEvent) -> (r: SchemaAction)
    ensures
        match event {
            SchemaEvent::Located(found) => if found {
                r is RunStdin
            } else {
                r == SchemaAction::Done(CloudInitSchemaCheck::MissingBinary)
            },
            SchemaEvent::Stdin(Ok(CloudInitSchemaCheck::Pass)) => r == SchemaAction::Done(
                CloudInitSchemaCheck::Pass,
            ),
            SchemaEvent::Stdin(Ok(_)) => r is RunTempFile,
            SchemaEvent::Stdin(Err(e)) => r == SchemaAction::Done(
                CloudInitSchemaCheck::InvocationFailed(e),
            ),
            SchemaEvent::TempFile(Ok(check)) => r == SchemaAction::Done(check),
            SchemaEvent::TempFile(Err(e)) => r == SchemaAction::Done(
                CloudInitSchemaCheck::InvocationFailed(e),
            ),
        },
{
    match event {
        SchemaEvent::Located(found) => if found {
            SchemaAction::RunStdin
        } else {
            SchemaAction::Done(CloudInitSchemaCheck::MissingBinary)
        },
        SchemaEvent::Stdin(Ok(CloudInitSchemaCheck::Pass)) => SchemaAction::Done(
            CloudInitSchemaCheck::Pass,
        ),
        SchemaEvent::Stdin(Ok(_)) => SchemaAction::RunTempFile,
        SchemaEvent::Stdin(Err(e)) => SchemaAction::Done(
            CloudInitSchemaCheck::InvocationFailed(e),
        ),
        SchemaEvent::TempFile(Ok(check)) => SchemaAction::Done(check),
        SchemaEvent::TempFile(Err(e)) => SchemaAction::Done(
            CloudInitSchemaCheck::InvocationFailed(e),
        ),
    }
}

/// The program that checks a cloud-config, if it is there.
pub fn locate_cloud_init_binary(found: bool) -> (r: Option<String>)
    ensures
        opt_text(r) == if found {
            Some("cloud-init"@)
        } else {
            None
        },
{
    if found {
        Some("cloud-init".to_owned())
    } else {
        None
    }
}

/// A cloud-config that was written as YAML, as the text that is checked, or why it is none.
pub open spec fn schema_text(written: Result<Seq<char>, Seq<char>>) -> Result<
    Seq<char>,
    Seq<char>,
> {
    match written {
        Ok(yaml) => Ok("#cloud-config\n"@ + yaml),
        Err(e) => Err(in_context("failed to serialize cloud_init fragment as YAML"@, e)),
    }
}

/// A cloud-config that was written as YAML, as the text that is checked.
pub fn render_cloud_init_schema_document(written: Result<String, PlanError>) -> (r: Result<
    String,
    PlanError,
>)
    ensures
        match r {
            Ok(text) => schema_text(read_view(written)) == Ok::<Seq<char>, Seq<char>>(text@),
            Err(e) => schema_text(read_view(written)) == Err::<Seq<char>, Seq<char>>(e@),
        },
{
    match written {
        Ok(yaml) => Ok(cat2("#cloud-config\n", yaml.as_str())),
        Err(e) => Err(e.within("failed to serialize cloud_init fragment as YAML")),
    }
}

/// What a program that found fault said.
pub open spec fn schema_message(
    status: Seq<char>,
    stdout: Seq<char>,
    stderr: Seq<char>,
) -> Seq<char> {
    let out = trim(stdout);
    let err = trim(stderr);
    if out.len() == 0 && err.len() == 0 {
        "cloud-init schema exited with "@ + status
    } else if out.len() == 0 {
        err
    } else if err.len() == 0 {
        out
    } else {
        err + "\n"@ + out
    }
}

/// What a program that found fault said: its error output, then its output, or how it
/// ended if it said nothing.
pub fn format_cloud_init_schema_message(status: &str, stdout: &str, stderr: &str) -> (r: String)
    ensures
        r@ == schema_message(status@, stdout@, stderr@),
{
    let out = trimmed(stdout);
    let err = trimmed(stderr);
    match (out.as_str().is_empty(), err.as_str().is_empty()) {
        (true, true) => cat2("cloud-init schema exited with ", status),
        (true, false) => err,
        (false, true) => out,
        (false, false) => cat3(err.as_str(), "\n", out.as_str()),
    }
}

/// What a run of the checking program gave.
pub fn parse_cloud_init_schema_output(
    success: bool,
    status: &str,
    stdout: &str,
    stderr: &str,
) -> (r: CloudInitSchemaCheck)
    ensures
        match r {
            CloudInitSchemaCheck::Pass => success,
            CloudInitSchemaCheck::Invalid(message) => !success && message@ == schema_message(
                status@,
                stdout@,
                stderr@,
            ),
            _ => false,
        },
{
    if success {
        CloudInitSchemaCheck::Pass
    } else {
        CloudInitSchemaCheck::Invalid(format_cloud_init_schema_message(status, stdout, stderr))
    }
}

/// What comes of a schema check: a warning to show, or an error.
#[derive(Debug)]
pub struct SchemaVerdict {
    pub warning: Option<String>,
    pub outcome: Result<(), PlanError>,
}

/// The warning that a schema check gives.
pub open spec fn schema_warning(
    mode: CloudInitSchemaMode,
    path: Seq<char>,
    check: CloudInitSchemaCheck,
) -> Option<Seq<char>> {
    match check {
        CloudInitSchemaCheck::InvocationFailed(details) if mode != CloudInitSchemaMode::Off => Some(
            "cloud-init schema pre-validation skipped for "@ + path + ": "@ + details@,
        ),
        CloudInitSchemaCheck::Invalid(details) if mode == CloudInitSchemaMode::Warn => Some(
            "cloud-init schema pre-validation reported issues for "@ + path + ":\n"@ + details@,
        ),
        _ => None,
    }
}

/// The error that a schema check gives.
pub open spec fn schema_error(
    mode: CloudInitSchemaMode,
    path: Seq<char>,
    check: CloudInitSchemaCheck,
) -> Option<Seq<char>> {
    match check {
        CloudInitSchemaCheck::Invalid(details) if mode == CloudInitSchemaMode::Strict => Some(
            "cloud-init schema pre-validation failed for "@ + path + ":\n"@ + details@,
        ),
        _ => None,
    }
}

/// Decides what comes of a schema check: a violation is an error in strict mode
/// only, and a check that cannot be made never is.
pub fn validate_cloud_init_schema_fragment(
    mode: CloudInitSchemaMode,
    path: &str,
    check: &CloudInitSchemaCheck,
) -> (r: SchemaVerdict)
    ensures
        opt_text(r.warning) == schema_warning(mode, path@, *check),
        outcome(r.outcome, schema_error(mode, path@, *check)),
{
    match check {
        CloudInitSchemaCheck::Pass | CloudInitSchemaCheck::MissingBinary => SchemaVerdict {
            warning: None,
            outcome: Ok(()),
        },
        CloudInitSchemaCheck::InvocationFailed(details) => {
            let warning = match mode {
                CloudInitSchemaMode::Off => None,
                _ => Some(
                    cat4(
                        "cloud-init schema pre-validation skipped for ",
                        path,
                        ": ",
                        details.as_str(),
                    ),
                ),
            };
            SchemaVerdict { warning, outcome: Ok(()) }
        },
        CloudInitSchemaCheck::Invalid(details) => match mode {
            CloudInitSchemaMode::Off => SchemaVerdict { warning: None, outcome: Ok(()) },
            CloudInitSchemaMode::Warn => SchemaVerdict {
                warning: Some(
                    cat4(
                        "cloud-init schema pre-validation reported issues for ",
                        path,
                        ":\n",
                        details.as_str(),
                    ),
                ),
                outcome: Ok(()),
            },
            CloudInitSchemaMode::Strict => SchemaVerdict {
                warning: None,
                outcome: Err(
                    PlanError::new(
                        cat4(
                            "cloud-init schema pre-validation failed for ",
                            path,
                            ":\n",
                            details.as_str(),
                        ),
                    ),
                ),
            },
        },
    }
}

/// Outside strict mode a schema check refuses nothing.
pub proof fn only_strict_mode_refuses(
    mode: CloudInitSchemaMode,
    path: Seq<char>,
    check: CloudInitSchemaCheck,
)
    ensures
        mode != CloudInitSchemaMode::Strict ==> schema_error(mode, path, check) is None,
        !(check is Invalid) ==> schema_error(mode, path, check) is None,
{
}

} // verus!
