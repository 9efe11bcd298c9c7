//! Uploads: files of the repository that are placed in the guest by path or pattern.

use vstd::prelude::*;
use vstd::string::*;

use crate::error::{PlanError, in_context, outcome};
use crate::globbing::has_wildcard;
use crate::pairs::Pair;
use crate::paths::{join_path, joined_path, parts_of, path_parts};
use crate::staging::{
    FileMapping, GuestInstall, InstallOpts, InstallPhase, StagingMode, cloned_text, staged_line,
    staged_text, staging_error, staging_error_text, temp_label,
};
use crate::strings::{cat2, cat3, cat4, cat7, has_prefix, has_suffix, joined, same, trimmed};
use crate::text::{decimal, ends_with, join, opt_text, starts_with, texts, trim};
use crate::validate::src_has_glob_metacharacters;

verus! {

/// Whether a part of a path names a file or a directory.
pub open spec fn is_name(part: Seq<char>) -> bool {
    part != "."@ && part != ".."@
}

// ---------------------------------------------------------------------------
// The source of an upload
// ---------------------------------------------------------------------------

/// Whether a part of a path is not a name.
pub open spec fn leaves(parts: Seq<Seq<char>>) -> bool {
    exists|k: int| 0 <= k < parts.len() && !is_name(#[trigger] parts[k])
}

/// Why the source of an upload is refused.
pub open spec fn upload_src_error(src: Seq<char>) -> Option<Seq<char>> {
    if src.len() == 0 {
        Some("upload src must not be empty"@)
    } else if starts_with(src, "/"@) {
        Some("upload src must be repo-relative, got: "@ + src)
    } else if leaves(path_parts(src)) {
        Some("upload src must contain no '.' or '..' segments: "@ + src)
    } else {
        None
    }
}

/// Refuses the source of an upload unless it is a path below the repository.
pub fn validate_top_level_upload_src_for_runtime(src: &str) -> (r: Result<(), PlanError>)
    ensures
        outcome(r, upload_src_error(src@)),
{
    if src.is_empty() {
        return Err(PlanError::text("upload src must not be empty"));
    }
    if has_prefix(src, "/") {
        return Err(PlanError::new(cat2("upload src must be repo-relative, got: ", src)));
    }
    let parts = parts_of(src);
    let ghost ps = texts(parts@);
    let mut i: usize = 0;
    while i < parts.len()
        invariant
            i <= parts@.len(),
            ps == texts(parts@),
            ps == path_parts(src@),
            src@.len() > 0,
            !starts_with(src@, "/"@),
            forall|k: int| 0 <= k < i ==> is_name(#[trigger] ps[k]),
        decreases parts@.len() - i,
    {
        assert(ps[i as int] == parts@[i as int]@);
        if same(parts[i].as_str(), ".") || same(parts[i].as_str(), "..") {
            assert(!is_name(ps[i as int]));
            return Err(
                PlanError::new(
                    cat2("upload src must contain no '.' or '..' segments: ", src),
                ),
            );
        }
        i += 1;
    }
    Ok(())
}

/// How many of the parts from `i` on are names without special characters.
pub open spec fn fixed_count(parts: Seq<Seq<char>>, i: int) -> int
    decreases parts.len() - i,
{
    if i < 0 || i >= parts.len() || !is_name(parts[i]) || has_wildcard(parts[i]) {
        0
    } else {
        1 + fixed_count(parts, i + 1)
    }
}

/// The directory that a pattern fixes: its parts up to the first with a special
/// character.
pub open spec fn fixed_prefix(src: Seq<char>) -> Seq<char> {
    let parts = path_parts(src);
    join(parts.take(fixed_count(parts, 0)), "/"@)
}

/// The directory that a pattern fixes: its parts up to the first with a special
/// character.
pub fn fixed_glob_prefix(src: &str) -> (r: String)
    ensures
        r@ == fixed_prefix(src@),
{
    let parts = parts_of(src);
    let ghost ps = texts(parts@);
    let mut kept: Vec<String> = Vec::new();
    assert(texts(kept@) =~= ps.take(0));
    let mut i: usize = 0;
    while i < parts.len() && !same(parts[i].as_str(), ".") && !same(parts[i].as_str(), "..")
        && !src_has_glob_metacharacters(parts[i].as_str())
        invariant
            i <= parts@.len(),
            ps == texts(parts@),
            fixed_count(ps, 0) == i + fixed_count(ps, i as int),
            texts(kept@) == ps.take(i as int),
        decreases parts@.len() - i,
    {
        assert(ps[i as int] == parts@[i as int]@);
        let ghost had = texts(kept@);
        kept.push(parts[i].clone());
        assert(texts(kept@) =~= had.push(ps[i as int]));
        assert(texts(kept@) =~= ps.take(i + 1));
        i += 1;
    }
    assert(fixed_count(ps, i as int) == 0) by {
        if i < parts@.len() {
            assert(ps[i as int] == parts@[i as int]@);
        }
    }
    joined(&kept, "/")
}

// ---------------------------------------------------------------------------
// The files of an upload
// ---------------------------------------------------------------------------

/// What an upload places, and how.
#[derive(Debug, PartialEq, Eq)]
pub struct TopLevelUpload {
    pub src: String,
    pub dest: String,
    pub mode: Option<String>,
    pub owner: Option<String>,
    pub group: Option<String>,
    pub overwrite: Option<bool>,
    pub parents: Option<bool>,
}

/// A file of the host and its place in the guest.
#[derive(Debug, PartialEq, Eq)]
pub struct UploadMapping {
    pub local_path: String,
    pub guest_dest: String,
}

/// What has to be looked for in the repository.
#[derive(Debug, PartialEq, Eq)]
pub enum UploadQuery {
    /// Whether there is a file at that path.
    File { path: String },
    /// The files that match that pattern.
    Pattern { pattern: String },
}

/// A path that matches a pattern.
#[derive(Debug, PartialEq, Eq)]
pub struct UploadMatch {
    pub path: String,
    pub is_file: bool,
}

/// What was found in the repository.
#[derive(Debug, PartialEq, Eq)]
pub enum UploadFound {
    /// Whether there is a file at the path.
    File { present: bool },
    /// What matches the pattern, unless it is no pattern, or a directory could not be
    /// read.
    Matches(Result<Vec<Result<UploadMatch, PlanError>>, PlanError>),
}

/// Whether a query asks for a source: for a pattern, or for the file that it names.
pub open spec fn asks_for(query: UploadQuery, root: Seq<char>, src: Seq<char>) -> bool {
    match query {
        UploadQuery::File { path } => !has_wildcard(src) && path@ == joined_path(root, src),
        UploadQuery::Pattern { pattern } => has_wildcard(src) && pattern@ == joined_path(root, src),
    }
}

/// What an upload has to look for, or why it is refused.
pub fn upload_query(repo_root: &str, upload: &TopLevelUpload) -> (r: Result<UploadQuery, PlanError>)
    ensures
        outcome(r, upload_src_error(trim(upload.src@))),
        r matches Ok(query) ==> asks_for(query, repo_root@, trim(upload.src@)),
{
    let src = trimmed(upload.src.as_str());
    if let Err(e) = validate_top_level_upload_src_for_runtime(src.as_str()) {
        return Err(e);
    }
    let path = join_path(repo_root, src.as_str());
    if src_has_glob_metacharacters(src.as_str()) {
        Ok(UploadQuery::Pattern { pattern: path })
    } else {
        Ok(UploadQuery::File { path })
    }
}

/// The path from the directory `base` to `path`, if it lies below it.
pub open spec fn relative_path(path: Seq<char>, base: Seq<char>) -> Option<Seq<char>> {
    let p = path_parts(path);
    let b = path_parts(base);
    if starts_with(path, "/"@) == starts_with(base, "/"@) && b.is_prefix_of(p) {
        Some(join(p.skip(b.len() as int), "/"@))
    } else {
        None
    }
}

/// The path from the directory `base` to `path`, if it lies below it.
pub fn path_below(path: &str, base: &str) -> (r: Option<String>)
    ensures
        match r {
            Some(rest) => relative_path(path@, base@) == Some(rest@),
            None => relative_path(path@, base@) is None,
        },
{
    let p = parts_of(path);
    let b = parts_of(base);
    let ghost pp = texts(p@);
    let ghost bb = texts(b@);
    if has_prefix(path, "/") != has_prefix(base, "/") || b.len() > p.len() {
        return None;
    }
    let mut i: usize = 0;
    while i < b.len()
        invariant
            i <= b@.len() <= p@.len(),
            pp == texts(p@),
            bb == texts(b@),
            pp == path_parts(path@),
            bb == path_parts(base@),
            forall|k: int| 0 <= k < i ==> #[trigger] bb[k] == pp[k],
        decreases b@.len() - i,
    {
        assert(bb[i as int] == b@[i as int]@);
        assert(pp[i as int] == p@[i as int]@);
        if !same(b[i].as_str(), p[i].as_str()) {
            assert(bb != pp.subrange(0, bb.len() as int)) by {
                assert(pp.subrange(0, bb.len() as int)[i as int] == pp[i as int]);
            }
            return None;
        }
        i += 1;
    }
    assert(bb =~= pp.subrange(0, bb.len() as int));
    let mut rest: Vec<String> = Vec::new();
    let ghost start = i as int;
    assert(texts(rest@) =~= pp.subrange(start, start));
    while i < p.len()
        invariant
            0 <= start <= i <= p@.len(),
            pp == texts(p@),
            texts(rest@) == pp.subrange(start, i as int),
        decreases p@.len() - i,
    {
        let ghost had = texts(rest@);
        rest.push(p[i].clone());
        assert(pp[i as int] == p@[i as int]@);
        assert(texts(rest@) =~= had.push(pp[i as int]));
        assert(texts(rest@) =~= pp.subrange(start, i + 1));
        i += 1;
    }
    assert(texts(rest@) =~= pp.skip(bb.len() as int));
    Some(joined(&rest, "/"))
}

/// The files among the first `n` matches of a pattern, each with its place in the
/// guest, or why one of them has none.
pub open spec fn matched_files(
    src: Seq<char>,
    root: Seq<char>,
    dest: Seq<char>,
    matches: Seq<Result<UploadMatch, PlanError>>,
    n: nat,
) -> Result<Seq<Pair>, Seq<char>>
    decreases n,
{
    if n == 0 {
        Ok(seq![])
    } else {
        let base = joined_path(root, fixed_prefix(src));
        match matched_files(src, root, dest, matches, (n - 1) as nat) {
            Err(e) => Err(e),
            Ok(front) => match matches[n - 1] {
                Err(e) => Err(
                    in_context(
                        "failed while expanding upload src glob '"@ + src + "' under "@ + root,
                        e@,
                    ),
                ),
                Ok(found) => if !found.is_file {
                    Ok(front)
                } else {
                    match relative_path(found.path@, base) {
                        None => Err(
                            "upload src glob '"@ + src + "' produced '"@ + found.path@
                                + "' outside fixed prefix '"@ + base + "'"@,
                        ),
                        Some(rest) => Ok(front.push((found.path@, joined_path(dest, rest)))),
                    }
                },
            },
        }
    }
}

proof fn lemma_matched_error_stays(
    src: Seq<char>,
    root: Seq<char>,
    dest: Seq<char>,
    matches: Seq<Result<UploadMatch, PlanError>>,
    n: nat,
    m: nat,
)
    requires
        n <= m,
        matched_files(src, root, dest, matches, n) is Err,
    ensures
        matched_files(src, root, dest, matches, m) == matched_files(src, root, dest, matches, n),
    decreases m,
{
    if n < m {
        lemma_matched_error_stays(src, root, dest, matches, n, (m - 1) as nat);
    }
}

/// The contents of a list of upload mappings.
pub open spec fn upload_pairs(v: Seq<UploadMapping>) -> Seq<Pair> {
    v.map_values(|m: UploadMapping| (m.local_path@, m.guest_dest@))
}

/// The files of an upload with their places in the guest, from what was found, or why
/// it has none.
pub open spec fn upload_files(root: Seq<char>, upload: TopLevelUpload, found: UploadFound) -> Result<
    Seq<Pair>,
    Seq<char>,
> {
    let src = trim(upload.src@);
    let dest = trim(upload.dest@);
    match upload_src_error(src) {
        Some(e) => Err(e),
        None => match found {
            UploadFound::File { present } => {
                let local = joined_path(root, src);
                let parts = path_parts(local);
                if !present {
                    Err(
                        "upload src '"@ + src + "' does not resolve to a regular file under "@
                            + root,
                    )
                } else if !ends_with(dest, "/"@) {
                    Ok(seq![(local, dest)])
                } else if parts.len() == 0 || !is_name(parts.last()) {
                    Err("upload src '"@ + local + "' has no file name"@)
                } else {
                    Ok(seq![(local, joined_path(dest, parts.last()))])
                }
            },
            UploadFound::Matches(Err(e)) => Err(
                in_context("invalid upload src glob '"@ + src + "'"@, e@),
            ),
            UploadFound::Matches(Ok(matches)) => match matched_files(
                src,
                root,
                dest,
                matches@,
                matches@.len(),
            ) {
                Err(e) => Err(e),
                Ok(files) => if files.len() == 0 {
                    Err("no files matched upload src glob '"@ + src + "' under "@ + root)
                } else {
                    Ok(files)
                },
            },
        },
    }
}

/// The files of an upload with their places in the guest. `found` answers what
/// [`upload_query`] asks. A file that is named goes to the destination, or below it if
/// it ends with a slash; files that match a pattern go below it, by their paths from the
/// directory that the pattern fixes.
pub fn resolve_top_level_upload_mappings(
    repo_root: &str,
    upload: &TopLevelUpload,
    found: &UploadFound,
) -> (r: Result<Vec<UploadMapping>, PlanError>)
    ensures
        match r {
            Ok(mappings) => upload_files(repo_root@, *upload, *found) == Ok::<
                Seq<Pair>,
                Seq<char>,
            >(upload_pairs(mappings@)),
            Err(e) => upload_files(repo_root@, *upload, *found) == Err::<Seq<Pair>, Seq<char>>(e@),
        },
{
    let src = trimmed(upload.src.as_str());
    let dest = trimmed(upload.dest.as_str());
    if let Err(e) = validate_top_level_upload_src_for_runtime(src.as_str()) {
        return Err(e);
    }
    match found {
        UploadFound::File { present } => named_file(
            repo_root,
            src.as_str(),
            dest.as_str(),
            *present,
        ),
        UploadFound::Matches(Err(e)) => {
            let context = cat3("invalid upload src glob '", src.as_str(), "'");
            Err(e.within(context.as_str()))
        },
        UploadFound::Matches(Ok(matches)) => {
            match match_files(repo_root, src.as_str(), dest.as_str(), matches) {
                Err(e) => Err(e),
                Ok(mappings) => {
                    assert(upload_pairs(mappings@).len() == mappings@.len());
                    if mappings.len() == 0 {
                        return Err(
                            PlanError::new(
                                cat4(
                                    "no files matched upload src glob '",
                                    src.as_str(),
                                    "' under ",
                                    repo_root,
                                ),
                            ),
                        );
                    }
                    Ok(mappings)
                },
            }
        },
    }
}

fn named_file(repo_root: &str, src: &str, dest: &str, present: bool) -> (r: Result<
    Vec<UploadMapping>,
    PlanError,
>)
    ensures
        ({
            let local = joined_path(repo_root@, src@);
            let parts = path_parts(local);
            if !present {
                outcome(
                    r,
                    Some(
                        "upload src '"@ + src@ + "' does not resolve to a regular file under "@
                            + repo_root@,
                    ),
                )
            } else if !ends_with(dest@, "/"@) {
                r matches Ok(m) && upload_pairs(m@) == seq![(local, dest@)]
            } else if parts.len() == 0 || !is_name(parts.last()) {
                outcome(r, Some("upload src '"@ + local + "' has no file name"@))
            } else {
                r matches Ok(m) && upload_pairs(m@) == seq![
                    (local, joined_path(dest@, parts.last())),
                ]
            }
        }),
{
    let local = join_path(repo_root, src);
    if !present {
        return Err(
            PlanError::new(
                cat4(
                    "upload src '",
                    src,
                    "' does not resolve to a regular file under ",
                    repo_root,
                ),
            ),
        );
    }
    let guest_dest = if has_suffix(dest, "/") {
        let parts = parts_of(local.as_str());
        let ghost ps = texts(parts@);
        let n: usize = parts.len();
        assert(ps.len() == n);
        if n == 0 {
            return Err(
                PlanError::new(cat3("upload src '", local.as_str(), "' has no file name")),
            );
        }
        assert(ps[n - 1] == parts@[n - 1]@);
        let last = parts[n - 1].as_str();
        if same(last, ".") || same(last, "..") {
            return Err(
                PlanError::new(cat3("upload src '", local.as_str(), "' has no file name")),
            );
        }
        join_path(dest, last)
    } else {
        dest.to_owned()
    };
    let ghost to = guest_dest@;
    let ghost from = local@;
    let r: Vec<UploadMapping> = vec![UploadMapping { local_path: local, guest_dest }];
    assert(upload_pairs(r@) =~= seq![(from, to)]);
    Ok(r)
}

fn match_files(
    repo_root: &str,
    src: &str,
    dest: &str,
    matches: &Vec<Result<UploadMatch, PlanError>>,
) -> (r: Result<Vec<UploadMapping>, PlanError>)
    ensures
        match r {
            Ok(m) => matched_files(src@, repo_root@, dest@, matches@, matches@.len()) == Ok::<
                Seq<Pair>,
                Seq<char>,
            >(upload_pairs(m@)),
            Err(e) => matched_files(src@, repo_root@, dest@, matches@, matches@.len()) == Err::<
                Seq<Pair>,
                Seq<char>,
            >(e@),
        },
{
    let prefix = fixed_glob_prefix(src);
    let base = join_path(repo_root, prefix.as_str());
    let mut mappings: Vec<UploadMapping> = Vec::new();
    assert(upload_pairs(mappings@) =~= seq![]);
    let mut i: usize = 0;
    while i < matches.len()
        invariant
            i <= matches@.len(),
            base@ == joined_path(repo_root@, fixed_prefix(src@)),
            matched_files(src@, repo_root@, dest@, matches@, i as nat) == Ok::<
                Seq<Pair>,
                Seq<char>,
            >(upload_pairs(mappings@)),
        decreases matches@.len() - i,
    {
        let ghost had = upload_pairs(mappings@);
        match &matches[i] {
            Err(e) => {
                proof {
                    lemma_matched_error_stays(
                        src@,
                        repo_root@,
                        dest@,
                        matches@,
                        (i + 1) as nat,
                        matches@.len(),
                    );
                }
                let context = cat4(
                    "failed while expanding upload src glob '",
                    src,
                    "' under ",
                    repo_root,
                );
                return Err(e.within(context.as_str()));
            },
            Ok(found) => {
                if found.is_file {
                    match path_below(found.path.as_str(), base.as_str()) {
                        None => {
                            proof {
                                lemma_matched_error_stays(
                                    src@,
                                    repo_root@,
                                    dest@,
                                    matches@,
                                    (i + 1) as nat,
                                    matches@.len(),
                                );
                            }
                            return Err(
                                PlanError::new(
                                    cat7(
                                        "upload src glob '",
                                        src,
                                        "' produced '",
                                        found.path.as_str(),
                                        "' outside fixed prefix '",
                                        base.as_str(),
                                        "'",
                                    ),
                                ),
                            );
                        },
                        Some(rest) => {
                            let guest_dest = join_path(dest, rest.as_str());
                            let ghost view = (found.path@, guest_dest@);
                            mappings.push(
                                UploadMapping { local_path: found.path.clone(), guest_dest },
                            );
                            assert(upload_pairs(mappings@) =~= had.push(view));
                        },
                    }
                }
            },
        }
        i += 1;
    }
    Ok(mappings)
}

/// The placing of a file of an upload: `entry` counts the uploads, `index` the files of
/// this one.
pub fn stage_top_level_upload(
    upload: &TopLevelUpload,
    mapping: &UploadMapping,
    entry: usize,
    index: usize,
    suffix: &str,
) -> (r: GuestInstall)
    ensures
        r.what@ == "upload"@,
        r.dest@ == mapping.guest_dest@,
        r.remote_tmp@ == "/tmp/botforge-upload-"@ + (decimal(entry as nat) + "-"@ + decimal(
            index as nat,
        )) + "-"@ + suffix@,
        opt_text(r.opts.mode) == opt_text(upload.mode),
        opt_text(r.opts.owner) == opt_text(upload.owner),
        opt_text(r.opts.group) == opt_text(upload.group),
        r.opts.overwrite == upload.overwrite,
        r.opts.parents == upload.parents,
        r.phase == InstallPhase::Start,
        r.failure is None,
{
    let label = temp_label(entry, index);
    let opts = InstallOpts {
        mode: cloned_text(&upload.mode),
        owner: cloned_text(&upload.owner),
        group: cloned_text(&upload.group),
        overwrite: upload.overwrite,
        parents: upload.parents,
    };
    GuestInstall::new("upload", mapping.guest_dest.as_str(), opts, label.as_str(), suffix)
}

/// An accepted source names something below the repository: it is not empty, has no
/// leading slash, and every part of it is the name of a file or a directory.
pub proof fn upload_sources_stay_below(src: Seq<char>)
    requires
        upload_src_error(src) is None,
    ensures
        src.len() > 0,
        src[0] != '/',
        forall|k: int|
            0 <= k < path_parts(src).len() ==> is_name(#[trigger] path_parts(src)[k]),
{
    reveal_strlit("/");
    if src[0] == '/' {
        assert("/"@ =~= src.subrange(0, 1));
    }
}

// ---------------------------------------------------------------------------
// Many uploads
// ---------------------------------------------------------------------------

/// The placing of the uploads of a plan.
#[derive(Debug, PartialEq, Eq)]
pub struct UploadStaging {
    pub repo_root: String,
    pub uploads: Vec<TopLevelUpload>,
    /// The upload whose files are placed.
    pub entry: usize,
    /// Its files.
    pub mappings: Vec<UploadMapping>,
    /// The file that is placed.
    pub index: usize,
    pub mode: StagingMode,
}

/// What the last action gave.
#[derive(Debug, PartialEq, Eq)]
pub enum UploadEvent {
    Begun,
    /// What was found for the upload.
    Found(UploadFound),
    /// How the placing of the file ended.
    Placed(Result<(), PlanError>),
}

/// What to do next.
#[derive(Debug, PartialEq, Eq)]
pub enum UploadAction {
    /// Look for the files of the upload.
    Look(UploadQuery),
    /// Place that file of that upload.
    Place { entry: usize, index: usize },
    Done(Result<(), PlanError>),
}

/// What to do next, and a line to show before it.
#[derive(Debug, PartialEq, Eq)]
pub struct UploadOutput {
    pub line: Option<String>,
    pub action: UploadAction,
}

impl UploadStaging {
    /// Placing that has not begun.
    pub fn new(repo_root: &str, uploads: Vec<TopLevelUpload>) -> (r: UploadStaging)
        ensures
            r.wf(),
            r.repo_root@ == repo_root@,
            r.uploads == uploads,
            r.mode == StagingMode::Start,
    {
        UploadStaging {
            repo_root: repo_root.to_owned(),
            uploads,
            entry: 0,
            mappings: Vec::new(),
            index: 0,
            mode: StagingMode::Start,
        }
    }

    /// What holds in every state: the upload and the file that are worked on exist.
    pub open spec fn wf(self) -> bool {
        match self.mode {
            StagingMode::Start => true,
            StagingMode::Resolving => self.entry < self.uploads@.len(),
            StagingMode::Placing => self.entry < self.uploads@.len() && self.index
                < self.mappings@.len(),
            StagingMode::Finished => true,
        }
    }

    /// Whether the event answers the last action.
    pub open spec fn awaits(self, event: UploadEvent) -> bool {
        match self.mode {
            StagingMode::Start => event is Begun,
            StagingMode::Resolving => event is Found,
            StagingMode::Placing => event is Placed,
            StagingMode::Finished => false,
        }
    }

    /// Whether work ends, with that error if there is one.
    pub open spec fn ends_with_error(self, error: Option<Seq<char>>, action: UploadAction) -> bool {
        &&& self.mode == StagingMode::Finished
        &&& match action {
            UploadAction::Done(r) => outcome(r, error),
            _ => false,
        }
    }

    /// Whether work goes on with an upload: its source is refused, or its files are looked
    /// for. Past the last upload all is done.
    pub open spec fn turns_to(self, entry: int, action: UploadAction) -> bool {
        let src = trim(self.uploads@[entry].src@);
        &&& self.entry == entry
        &&& if entry >= self.uploads@.len() {
            self.ends_with_error(None, action)
        } else if upload_src_error(src) is Some {
            self.ends_with_error(upload_src_error(src), action)
        } else {
            &&& self.mode == StagingMode::Resolving
            &&& match action {
                UploadAction::Look(query) => asks_for(query, self.repo_root@, src),
                _ => false,
            }
        }
    }
}

/// Whether an event takes the placing from one state to the next, with that line shown and
/// that to do. The uploads come in their order, and so do the files of each. The first
/// upload that is refused or finds nothing and the first file that cannot be placed end it.
pub open spec fn upload_moves(
    pre: UploadStaging,
    event: UploadEvent,
    post: UploadStaging,
    line: Option<Seq<char>>,
    action: UploadAction,
) -> bool {
    let upload = pre.uploads@[pre.entry as int];
    let mapping = pre.mappings@[pre.index as int];
    &&& post.uploads == pre.uploads
    &&& post.repo_root == pre.repo_root
    &&& match event {
        UploadEvent::Begun => line is None && post.turns_to(0, action),
        UploadEvent::Found(found) => line is None && match upload_files(
            pre.repo_root@,
            upload,
            found,
        ) {
            Err(e) => post.ends_with_error(Some(e), action),
            Ok(files) => {
                &&& upload_pairs(post.mappings@) == files
                &&& post.mode == StagingMode::Placing
                &&& post.entry == pre.entry
                &&& post.index == 0
                &&& action == UploadAction::Place { entry: post.entry, index: 0 }
            },
        },
        UploadEvent::Placed(Err(e)) => line is None && post.ends_with_error(
            Some(
                staging_error_text(
                    "top-level upload"@,
                    upload.src@,
                    mapping.local_path@,
                    mapping.guest_dest@,
                    e@,
                ),
            ),
            action,
        ),
        UploadEvent::Placed(Ok(_)) => {
            &&& line == Some(
                staged_text(
                    "top-level upload"@,
                    pre.entry as int,
                    mapping.local_path@,
                    mapping.guest_dest@,
                ),
            )
            &&& post.mappings == pre.mappings
            &&& if pre.index + 1 < pre.mappings@.len() {
                &&& post.mode == StagingMode::Placing
                &&& post.entry == pre.entry
                &&& post.index == pre.index + 1
                &&& action == UploadAction::Place { entry: post.entry, index: post.index }
            } else {
                post.turns_to(pre.entry + 1, action)
            }
        },
    }
}

/// Turns to an upload.
fn turn_to_upload(state: &mut UploadStaging, entry: usize) -> (action: UploadAction)
    requires
        entry <= old(state).uploads@.len(),
    ensures
        final(state).repo_root == old(state).repo_root,
        final(state).uploads == old(state).uploads,
        final(state).mappings == old(state).mappings,
        final(state).wf(),
        final(state).turns_to(entry as int, action),
{
    state.entry = entry;
    if entry >= state.uploads.len() {
        state.mode = StagingMode::Finished;
        return UploadAction::Done(Ok(()));
    }
    match upload_query(state.repo_root.as_str(), &state.uploads[entry]) {
        Ok(query) => {
            state.mode = StagingMode::Resolving;
            UploadAction::Look(query)
        },
        Err(e) => {
            state.mode = StagingMode::Finished;
            UploadAction::Done(Err(e))
        },
    }
}

/// Places the uploads of a plan: takes in what the last action gave and tells what to do
/// next.
pub fn stage_top_level_uploads(state: &mut UploadStaging, event: UploadEvent) -> (out: UploadOutput)
    requires
        old(state).wf(),
        old(state).awaits(event),
    ensures
        final(state).wf(),
        upload_moves(*old(state), event, *final(state), opt_text(out.line), out.action),
{
    match event {
        UploadEvent::Begun => {
            let action = turn_to_upload(state, 0);
            UploadOutput { line: None, action }
        },
        UploadEvent::Found(found) => {
            let entry: usize = state.entry;
            match resolve_top_level_upload_mappings(
                state.repo_root.as_str(),
                &state.uploads[entry],
                &found,
            ) {
                Err(e) => {
                    state.mode = StagingMode::Finished;
                    UploadOutput { line: None, action: UploadAction::Done(Err(e)) }
                },
                Ok(mappings) => {
                    assert(upload_pairs(mappings@).len() > 0);
                    state.mappings = mappings;
                    state.mode = StagingMode::Placing;
                    state.index = 0;
                    UploadOutput { line: None, action: UploadAction::Place { entry, index: 0 } }
                },
            }
        },
        UploadEvent::Placed(result) => {
            let entry: usize = state.entry;
            assert(state.uploads.len() <= usize::MAX && state.mappings.len() <= usize::MAX);
            let mapping = FileMapping {
                local_path: state.mappings[state.index].local_path.clone(),
                guest_dest: state.mappings[state.index].guest_dest.clone(),
            };
            if let Err(e) = result {
                let error = staging_error(
                    "top-level upload",
                    state.uploads[entry].src.as_str(),
                    &mapping,
                    &e,
                );
                state.mode = StagingMode::Finished;
                return UploadOutput { line: None, action: UploadAction::Done(Err(error)) };
            }
            let line = staged_line("top-level upload", entry, &mapping);
            let next: usize = state.index + 1;
            if next < state.mappings.len() {
                state.index = next;
                UploadOutput {
                    line: Some(line),
                    action: UploadAction::Place { entry, index: next },
                }
            } else {
                let action = turn_to_upload(state, entry + 1);
                UploadOutput { line: Some(line), action }
            }
        },
    }
}

/// Success is told only after the last file of the last upload.
pub proof fn no_upload_is_skipped(
    pre: UploadStaging,
    event: UploadEvent,
    post: UploadStaging,
    line: Option<Seq<char>>,
    action: UploadAction,
)
    requires
        pre.wf(),
        pre.awaits(event),
        upload_moves(pre, event, post, line, action),
        action matches UploadAction::Done(r) && r is Ok,
    ensures
        post.entry == post.uploads@.len(),
        post.uploads@.len() > 0 ==> {
            &&& event is Placed
            &&& pre.entry + 1 == pre.uploads@.len()
            &&& pre.index + 1 == pre.mappings@.len()
        },
{
}

} // verus!
