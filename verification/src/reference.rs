//! References to files: of the repository, of the artifact directory, or of a named
//! asset.

use vstd::prelude::*;
use vstd::string::*;

use crate::accounts::is_among;
use crate::error::PlanError;
use crate::strings::{cat3, has_prefix, pieces, same, search, slice, to_chars, without_prefix};
use crate::text::{find, opt_text, split, starts_with};

verus! {

/// What an `@`-reference names.
#[derive(Debug, PartialEq, Eq)]
pub enum Reference {
    /// `@://path`: a path of the repository.
    Repo { path: Option<String> },
    /// `@artifact://path`: a path of the artifact directory.
    Artifact { path: Option<String> },
    /// `@name` or `@name://path`: an asset, or a path in it.
    Asset { name: String, path: Option<String> },
}

/// The model of a [`Reference`].
pub enum ReferenceView {
    Repo { path: Option<Seq<char>> },
    Artifact { path: Option<Seq<char>> },
    Asset { name: Seq<char>, path: Option<Seq<char>> },
}

impl View for Reference {
    type V = ReferenceView;

    open spec fn view(&self) -> ReferenceView {
        match self {
            Reference::Repo { path } => ReferenceView::Repo { path: opt_text(*path) },
            Reference::Artifact { path } => ReferenceView::Artifact { path: opt_text(*path) },
            Reference::Asset { name, path } => ReferenceView::Asset {
                name: name@,
                path: opt_text(*path),
            },
        }
    }
}

/// Whether one of the pieces is `.` or `..`.
pub open spec fn has_dots(pieces: Seq<Seq<char>>) -> bool {
    pieces.contains("."@) || pieces.contains(".."@)
}

/// Whether `path` stays below the directory it is taken from.
pub open spec fn stays_below(path: Seq<char>) -> bool {
    !starts_with(path, "/"@) && !has_dots(split(path, '/'))
}

/// What a reference that begins with `@` and a scheme names.
pub open spec fn scheme_reference(scheme: Seq<char>, path: Option<Seq<char>>) -> ReferenceView {
    if scheme.len() == 0 {
        ReferenceView::Repo { path }
    } else if scheme == "artifact"@ {
        ReferenceView::Artifact { path }
    } else {
        ReferenceView::Asset { name: scheme, path }
    }
}

/// What `raw` names, or why it is no reference.
pub open spec fn reference_of(raw: Seq<char>) -> Result<ReferenceView, Seq<char>> {
    if !starts_with(raw, "@"@) {
        Err("reference '"@ + raw + "' must start with '@'"@)
    } else {
        let body = raw.skip(1);
        match find(body, "://"@) {
            None => if body.len() == 0 {
                Ok(ReferenceView::Repo { path: None })
            } else {
                Ok(ReferenceView::Asset { name: body, path: None })
            },
            Some(i) => {
                let scheme = body.take(i);
                let path = body.skip(i + 3);
                if path.len() == 0 {
                    Ok(scheme_reference(scheme, None))
                } else if stays_below(path) {
                    Ok(scheme_reference(scheme, Some(path)))
                } else {
                    Err(
                        "reference path '"@ + path
                            + "' must be relative and must contain no '.' or '..' segments"@,
                    )
                }
            },
        }
    }
}

/// Whether `path` stays below the directory it is taken from.
pub fn path_stays_below(path: &str) -> (r: bool)
    ensures
        r == stays_below(path@),
{
    if has_prefix(path, "/") {
        return false;
    }
    let parts = pieces(path, '/');
    !is_among(&parts, ".") && !is_among(&parts, "..")
}

fn named(scheme: String, path: Option<String>) -> (r: Reference)
    ensures
        r@ == scheme_reference(scheme@, opt_text(path)),
{
    if scheme.as_str().is_empty() {
        Reference::Repo { path }
    } else if same(scheme.as_str(), "artifact") {
        Reference::Artifact { path }
    } else {
        Reference::Asset { name: scheme, path }
    }
}

impl Reference {
    /// Reads a reference.
    pub fn parse(raw: &str) -> (r: Result<Reference, PlanError>)
        ensures
            match r {
                Ok(reference) => reference_of(raw@) == Ok::<ReferenceView, Seq<char>>(reference@),
                Err(e) => reference_of(raw@) == Err::<ReferenceView, Seq<char>>(e@),
            },
    {
        proof {
            reveal_strlit("@");
            reveal_strlit("://");
        }
        let body = match without_prefix(raw, "@") {
            Some(body) => body,
            None => {
                return Err(
                    PlanError::new(cat3("reference '", raw, "' must start with '@'")),
                );
            },
        };
        let v = to_chars(body.as_str());
        let mark = to_chars("://");
        match search(&v, &mark, 0) {
            None => if body.as_str().is_empty() {
                Ok(Reference::Repo { path: None })
            } else {
                Ok(Reference::Asset { name: body, path: None })
            },
            Some(i) => {
                let scheme = slice(&v, 0, i);
                let path = slice(&v, i + 3, v.len());
                if path.as_str().is_empty() {
                    Ok(named(scheme, None))
                } else if path_stays_below(path.as_str()) {
                    Ok(named(scheme, Some(path)))
                } else {
                    Err(
                        PlanError::new(
                            cat3(
                                "reference path '",
                                path.as_str(),
                                "' must be relative and must contain no '.' or '..' segments",
                            ),
                        ),
                    )
                }
            },
        }
    }
}

/// Reads the `image:` of a document.
pub fn parse_config_image(raw: &str) -> (r: Result<Reference, PlanError>)
    ensures
        match r {
            Ok(reference) => reference_of(raw@) == Ok::<ReferenceView, Seq<char>>(reference@),
            Err(e) => reference_of(raw@) == Err::<ReferenceView, Seq<char>>(e@),
        },
{
    Reference::parse(raw)
}

/// The path that a reference names.
pub open spec fn path_of(r: ReferenceView) -> Option<Seq<char>> {
    match r {
        ReferenceView::Repo { path } => path,
        ReferenceView::Artifact { path } => path,
        ReferenceView::Asset { name, path } => path,
    }
}

/// A path that a reference names stays below the directory it is taken from.
pub proof fn references_stay_below(raw: Seq<char>)
    ensures
        reference_of(raw) matches Ok(r) ==> (path_of(r) matches Some(path) ==> stays_below(path)),
{
}

} // verus!
