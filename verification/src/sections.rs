//! Which sections a document may have, and which documents `uses:` may take in.

use vstd::prelude::*;
use vstd::string::*;

use crate::document::DocumentType;
use crate::error::{PlanError, in_context, outcome};
use crate::inputs::{InputDeclaration, fragment_inputs, resolve_fragment_inputs};
use crate::pairs::{Pair, pairs};
use crate::paths::{join_path, joined_path};
use crate::reference::{Reference, ReferenceView, reference_of};
use crate::strings::{cat2, cat3, cat4, cat5, cat6, has_prefix, search, slice, to_chars};
use crate::template::{substitute_inputs_in_value, value_substituted};
use crate::text::{find, starts_with, texts};
use crate::validate::first_error;
use crate::value::{
    EntryView, Node, NodeView, entry_views, get_text, has_key, lemma_mapping_view, text_entry,
    untagged,
};

verus! {

/// The sections that a fragment may not have.
pub open spec fn fragment_taboo() -> Seq<Seq<char>> {
    seq![
        "ports"@,
        "isos"@,
        "diagnostics_units"@,
        "disk_size"@,
        "memsize"@,
        "smp"@,
        "step_timeout"@,
        "timeout"@,
        "image"@,
        "output"@,
        "compress"@,
        "files"@,
    ]
}

/// The sections that a test may not have.
pub open spec fn test_taboo() -> Seq<Seq<char>> {
    seq!["disk_size"@, "memsize"@, "smp"@, "output"@, "compress"@]
}

/// The sections that a build may not have.
pub open spec fn build_taboo() -> Seq<Seq<char>> {
    seq!["ports"@, "isos"@, "diagnostics_units"@, "memsize"@, "smp"@]
}

/// Why a document is refused because of the first of `n` sections that it has and
/// may not have.
pub open spec fn taboo_error(
    entries: Seq<EntryView>,
    sections: Seq<Seq<char>>,
    kind: DocumentType,
    path: Seq<char>,
    n: nat,
) -> Option<Seq<char>>
    decreases n,
{
    if n == 0 {
        None
    } else {
        first_error(
            taboo_error(entries, sections, kind, path, (n - 1) as nat),
            if has_key(entries, sections[n - 1]) {
                Some(
                    sections[n - 1] + ": is not valid in a 'type: "@ + kind.word()
                        + "' document ("@ + path + ")"@,
                )
            } else {
                None
            },
        )
    }
}

/// Why a document is refused because of its sections; what is no mapping has none.
pub open spec fn sections_error(
    value: NodeView,
    sections: Seq<Seq<char>>,
    kind: DocumentType,
    path: Seq<char>,
) -> Option<Seq<char>> {
    match value {
        NodeView::Mapping(entries) => taboo_error(entries, sections, kind, path, sections.len()),
        _ => None,
    }
}

proof fn lemma_taboo_stays(
    entries: Seq<EntryView>,
    sections: Seq<Seq<char>>,
    kind: DocumentType,
    path: Seq<char>,
    n: nat,
    m: nat,
)
    requires
        n <= m,
        taboo_error(entries, sections, kind, path, n) is Some,
    ensures
        taboo_error(entries, sections, kind, path, m) == taboo_error(
            entries,
            sections,
            kind,
            path,
            n,
        ),
    decreases m,
{
    if n < m {
        lemma_taboo_stays(entries, sections, kind, path, n, (m - 1) as nat);
    }
}

fn check_sections(value: &Node, sections: &Vec<String>, kind: DocumentType, path: &str) -> (r:
    Result<(), PlanError>)
    ensures
        outcome(r, sections_error(value@, texts(sections@), kind, path@)),
{
    let entries = match value {
        Node::Mapping(entries) => entries,
        _ => {
            return Ok(());
        },
    };
    let ghost es = entry_views(entries@);
    let ghost ss = texts(sections@);
    proof {
        lemma_mapping_view(*entries);
    }
    let mut i: usize = 0;
    while i < sections.len()
        invariant
            i <= sections@.len(),
            es == entry_views(entries@),
            ss == texts(sections@),
            value@ == NodeView::Mapping(es),
            taboo_error(es, ss, kind, path@, i as nat) is None,
        decreases sections@.len() - i,
    {
        assert(ss[i as int] == sections@[i as int]@);
        if text_entry(entries, sections[i].as_str()).is_some() {
            proof {
                lemma_taboo_stays(es, ss, kind, path@, (i + 1) as nat, ss.len());
            }
            return Err(
                PlanError::new(
                    cat6(
                        sections[i].as_str(),
                        ": is not valid in a 'type: ",
                        kind.as_str(),
                        "' document (",
                        path,
                        ")",
                    ),
                ),
            );
        }
        i += 1;
    }
    Ok(())
}

/// Refuses a fragment that has a section of an entrypoint.
pub fn check_no_entrypoint_sections_in_fragment(path: &str, value: &Node) -> (r: Result<
    (),
    PlanError,
>)
    ensures
        outcome(r, sections_error(value@, fragment_taboo(), DocumentType::Fragment, path@)),
{
    let sections: Vec<String> = vec![
        "ports".to_owned(),
        "isos".to_owned(),
        "diagnostics_units".to_owned(),
        "disk_size".to_owned(),
        "memsize".to_owned(),
        "smp".to_owned(),
        "step_timeout".to_owned(),
        "timeout".to_owned(),
        "image".to_owned(),
        "output".to_owned(),
        "compress".to_owned(),
        "files".to_owned(),
    ];
    assert(texts(sections@) =~= fragment_taboo());
    check_sections(value, &sections, DocumentType::Fragment, path)
}

/// Refuses a test that has a section of a build.
pub fn check_no_build_sections_in_test_doc(path: &str, value: &Node) -> (r: Result<
    (),
    PlanError,
>)
    ensures
        outcome(r, sections_error(value@, test_taboo(), DocumentType::Test, path@)),
{
    let sections: Vec<String> = vec![
        "disk_size".to_owned(),
        "memsize".to_owned(),
        "smp".to_owned(),
        "output".to_owned(),
        "compress".to_owned(),
    ];
    assert(texts(sections@) =~= test_taboo());
    check_sections(value, &sections, DocumentType::Test, path)
}

/// Refuses a build that has a section of a test.
pub fn check_no_test_entrypoint_sections_in_build_doc(path: &str, value: &Node) -> (r: Result<
    (),
    PlanError,
>)
    ensures
        outcome(r, sections_error(value@, build_taboo(), DocumentType::Build, path@)),
{
    let sections: Vec<String> = vec![
        "ports".to_owned(),
        "isos".to_owned(),
        "diagnostics_units".to_owned(),
        "memsize".to_owned(),
        "smp".to_owned(),
    ];
    assert(texts(sections@) =~= build_taboo());
    check_sections(value, &sections, DocumentType::Build, path)
}

/// Why a document is refused because of a `bootcmd:` at its top.
pub open spec fn bootcmd_error(value: NodeView, path: Seq<char>) -> Option<Seq<char>> {
    match value {
        NodeView::Mapping(entries) => if has_key(entries, "bootcmd"@) {
            Some(
                "top-level 'bootcmd:' is no longer supported ("@ + path
                    + "): migrate to 'cloud_init:\\n  bootcmd:' instead"@,
            )
        } else {
            None
        },
        _ => None,
    }
}

/// Refuses a document with a `bootcmd:` at its top, which belongs into `cloud_init:`.
pub fn check_no_top_level_bootcmd(path: &str, value: &Node) -> (r: Result<(), PlanError>)
    ensures
        outcome(r, bootcmd_error(value@, path@)),
{
    match value {
        Node::Mapping(entries) => {
            proof {
                lemma_mapping_view(*entries);
            }
            if text_entry(entries, "bootcmd").is_some() {
                return Err(
                    PlanError::new(
                        cat3(
                            "top-level 'bootcmd:' is no longer supported (",
                            path,
                            "): migrate to 'cloud_init:\\n  bootcmd:' instead",
                        ),
                    ),
                );
            }
            Ok(())
        },
        _ => Ok(()),
    }
}

/// Why `uses:` may not take in a document. `reads_as` is the kind that its `type:`
/// reads as.
pub open spec fn fragment_type_error(
    uses: Seq<char>,
    value: NodeView,
    reads_as: Option<DocumentType>,
) -> Option<Seq<char>> {
    match value {
        NodeView::Mapping(entries) => match get_text(entries, "type"@) {
            None => Some(uses + " is missing required 'type:' field"@),
            Some(NodeView::String(word)) => match reads_as {
                Some(DocumentType::Fragment) => None,
                Some(kind) => Some(
                    uses + " is not a consumable fragment (type: "@ + kind.word() + ")"@,
                ),
                None => Some(uses + " is not a consumable fragment (type: "@ + word + ")"@),
            },
            Some(_) => Some(uses + ": 'type:' field must be a string"@),
        },
        _ => None,
    }
}

/// Refuses a document that `uses:` may not take in: any but a fragment. `reads_as` is
/// the kind that its `type:` reads as, if it reads as one.
pub fn check_fragment_document_type(
    uses: &str,
    value: &Node,
    reads_as: Option<DocumentType>,
) -> (r: Result<(), PlanError>)
    ensures
        outcome(r, fragment_type_error(uses@, value@, reads_as)),
{
    let entries = match value {
        Node::Mapping(entries) => entries,
        _ => {
            return Ok(());
        },
    };
    proof {
        lemma_mapping_view(*entries);
    }
    match text_entry(entries, "type") {
        None => Err(PlanError::new(cat2(uses, " is missing required 'type:' field"))),
        Some(Node::String(word)) => match reads_as {
            Some(kind) => if kind.is_consumable_fragment() {
                Ok(())
            } else {
                Err(
                    PlanError::new(
                        cat4(
                            uses,
                            " is not a consumable fragment (type: ",
                            kind.as_str(),
                            ")",
                        ),
                    ),
                )
            },
            None => Err(
                PlanError::new(
                    cat4(uses, " is not a consumable fragment (type: ", word.as_str(), ")"),
                ),
            ),
        },
        Some(_) => Err(PlanError::new(cat2(uses, ": 'type:' field must be a string"))),
    }
}

/// The declarations of a fragment's inputs as its document writes them.
pub open spec fn inputs_section(value: NodeView) -> Option<NodeView> {
    match value {
        NodeView::Mapping(entries) => get_text(entries, "inputs"@),
        _ => None,
    }
}

/// The declarations of a fragment's inputs as its document writes them; `None` if it
/// declares none.
pub fn extract_fragment_input_declarations(value: &Node) -> (r: Option<&Node>)
    ensures
        match r {
            Some(v) => inputs_section(value@) == Some(v@),
            None => inputs_section(value@) is None,
        },
{
    match value {
        Node::Mapping(entries) => {
            proof {
                lemma_mapping_view(*entries);
            }
            text_entry(entries, "inputs")
        },
        _ => None,
    }
}

/// The file that a `uses:` names, or why it names none.
pub open spec fn uses_path(root: Seq<char>, uses: Seq<char>) -> Result<Seq<char>, Seq<char>> {
    if !starts_with(uses, "@"@) {
        match find(uses, "://"@) {
            Some(i) => Err(
                "unsupported uses scheme '"@ + uses.take(i) + "' in '"@ + uses
                    + "'; only @://<path> is supported"@,
            ),
            None => Err("invalid uses value '"@ + uses + "': expected @://<path>"@),
        }
    } else {
        match reference_of(uses) {
            Err(e) => Err(in_context("invalid uses value '"@ + uses + "'"@, e)),
            Ok(ReferenceView::Repo { path: Some(path) }) => Ok(joined_path(root, path)),
            Ok(ReferenceView::Repo { path: None }) => Err(
                "invalid uses value '"@ + uses + "': expected @://<path>"@,
            ),
            Ok(_) => Err(
                "unsupported uses scheme in '"@ + uses + "'; only @://<path> is supported"@,
            ),
        }
    }
}

/// The file that a `uses:` names: `@://path`, a path of the repository.
pub fn resolve_uses_path(repo_root: &str, uses: &str) -> (r: Result<String, PlanError>)
    ensures
        match r {
            Ok(path) => uses_path(repo_root@, uses@) == Ok::<Seq<char>, Seq<char>>(path@),
            Err(e) => uses_path(repo_root@, uses@) == Err::<Seq<char>, Seq<char>>(e@),
        },
{
    if !has_prefix(uses, "@") {
        let v = to_chars(uses);
        let mark = to_chars("://");
        return match search(&v, &mark, 0) {
            Some(i) => {
                let scheme = slice(&v, 0, i);
                Err(
                    PlanError::new(
                        cat5(
                            "unsupported uses scheme '",
                            scheme.as_str(),
                            "' in '",
                            uses,
                            "'; only @://<path> is supported",
                        ),
                    ),
                )
            },
            None => Err(
                PlanError::new(
                    cat3("invalid uses value '", uses, "': expected @://<path>"),
                ),
            ),
        };
    }
    match Reference::parse(uses) {
        Err(e) => {
            let context = cat3("invalid uses value '", uses, "'");
            Err(e.within(context.as_str()))
        },
        Ok(Reference::Repo { path: Some(path) }) => Ok(join_path(repo_root, path.as_str())),
        Ok(Reference::Repo { path: None }) => Err(
            PlanError::new(cat3("invalid uses value '", uses, "': expected @://<path>")),
        ),
        Ok(_) => Err(
            PlanError::new(
                cat3(
                    "unsupported uses scheme in '",
                    uses,
                    "'; only @://<path> is supported",
                ),
            ),
        ),
    }
}

/// What a fragment is when its inputs are filled in, or why it is refused.
pub open spec fn filled_fragment(
    path: Seq<char>,
    uses: Seq<char>,
    value: NodeView,
    reads_as: Option<DocumentType>,
    declarations: Result<Seq<(String, InputDeclaration)>, Seq<char>>,
    given: Seq<Pair>,
) -> Result<NodeView, Seq<char>> {
    let context = "invalid test step include: "@ + path;
    if untagged(value) is Sequence {
        Err(in_context(context, "test step include must be a mapping with a 'steps:' key"@))
    } else if fragment_type_error(uses, value, reads_as) is Some {
        Err(fragment_type_error(uses, value, reads_as)->0)
    } else if sections_error(value, fragment_taboo(), DocumentType::Fragment, path) is Some {
        Err(sections_error(value, fragment_taboo(), DocumentType::Fragment, path)->0)
    } else {
        match declarations {
            Err(e) => Err(in_context(context, in_context("invalid inputs: declaration"@, e))),
            Ok(decls) => match fragment_inputs(path, decls, given) {
                Err(e) => Err(in_context(context, e)),
                Ok(inputs) => match value_substituted(value, "inputs"@, inputs, false) {
                    Err(e) => Err(in_context(context, e)),
                    Ok(filled) => Ok(filled),
                },
            },
        }
    }
}

/// The declarations as a result, in the terms of the model.
pub open spec fn declarations_view(
    r: Result<Vec<(String, InputDeclaration)>, PlanError>,
) -> Result<Seq<(String, InputDeclaration)>, Seq<char>> {
    match r {
        Ok(decls) => Ok(decls@),
        Err(e) => Err(e@),
    }
}

/// Accepts the document of a fragment and fills in its inputs. `declarations` is what
/// reading its `inputs:` gave, with nothing declared if there is no such section.
pub fn load_test_steps_fragment(
    path: &str,
    uses: &str,
    value: &Node,
    reads_as: Option<DocumentType>,
    declarations: &Result<Vec<(String, InputDeclaration)>, PlanError>,
    with: &Vec<(String, String)>,
) -> (r: Result<Node, PlanError>)
    ensures
        match r {
            Ok(filled) => filled_fragment(
                path@,
                uses@,
                value@,
                reads_as,
                declarations_view(*declarations),
                pairs(with@),
            ) == Ok::<NodeView, Seq<char>>(filled@),
            Err(e) => filled_fragment(
                path@,
                uses@,
                value@,
                reads_as,
                declarations_view(*declarations),
                pairs(with@),
            ) == Err::<NodeView, Seq<char>>(e@),
        },
{
    let context = cat2("invalid test step include: ", path);
    if value.is_sequence() {
        let e = PlanError::text("test step include must be a mapping with a 'steps:' key");
        return Err(e.within(context.as_str()));
    }
    match check_fragment_document_type(uses, value, reads_as) {
        Ok(()) => {},
        Err(e) => {
            return Err(e);
        },
    }
    match check_no_entrypoint_sections_in_fragment(path, value) {
        Ok(()) => {},
        Err(e) => {
            return Err(e);
        },
    }
    let decls = match declarations {
        Ok(decls) => decls,
        Err(e) => {
            return Err(e.within("invalid inputs: declaration").within(context.as_str()));
        },
    };
    let inputs = match resolve_fragment_inputs(path, decls, with) {
        Ok(inputs) => inputs,
        Err(e) => {
            return Err(e.within(context.as_str()));
        },
    };
    match substitute_inputs_in_value(value, &inputs) {
        Ok(filled) => Ok(filled),
        Err(e) => Err(e.within(context.as_str())),
    }
}

// ---------------------------------------------------------------------------
// Steps as documents write them
// ---------------------------------------------------------------------------

/// What a step of a document is.
#[derive(Clone, Copy, Debug, PartialEq, Eq, Structural)]
pub enum StepShape {
    /// The steps of a fragment.
    Include,
    /// An archive to unpack.
    Archive,
    /// A script to run.
    Run,
}

/// What a step of a document is: its keys tell.
pub open spec fn shape_of(value: NodeView) -> StepShape {
    match value {
        NodeView::Mapping(entries) => if get_text(entries, "uses"@) is Some {
            StepShape::Include
        } else if get_text(entries, "archive"@) is Some {
            StepShape::Archive
        } else {
            StepShape::Run
        },
        _ => StepShape::Run,
    }
}

/// What a step of a document is: its keys tell.
pub fn step_shape(value: &Node) -> (r: StepShape)
    ensures
        r == shape_of(value@),
{
    match value {
        Node::Mapping(entries) => {
            proof {
                lemma_mapping_view(*entries);
            }
            if text_entry(entries, "uses").is_some() {
                StepShape::Include
            } else if text_entry(entries, "archive").is_some() {
                StepShape::Archive
            } else {
                StepShape::Run
            }
        },
        _ => StepShape::Run,
    }
}

} // verus!
