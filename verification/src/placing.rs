//! Files on their way into the guest: which are placed, where, in what order, and by what
//! command.

use vstd::prelude::*;
use vstd::string::*;

use crate::error::PlanError;
use crate::globbing::has_wildcard;
use crate::guest::{lemma_literal_is_word, lemma_quote_is_word};
use crate::pairs::Pair;
use crate::paths::{joined_path, parts_from, path_parts, same_path};
use crate::reference::reference_of;
use crate::shell::{command_words, is_literal_word, lemma_read, quoted, reads_as_word};
use crate::staging::{
    FileMapping, FileStaging, GuestInstall, InstallOpts, InstallPhase, ResolvedFile,
    StagingAction, StagingEvent, mapping_error, places, reached, staging_moves, text_or,
};
use crate::text::{ends_with, join, lemma_join_from_the_front, split_undoes_join, starts_with, trim};
use crate::uploads::{
    TopLevelUpload, UploadAction, UploadEvent, UploadFound, UploadMatch, UploadQuery,
    UploadStaging, asks_for, fixed_count, fixed_prefix, is_name, leaves, matched_files,
    relative_path, upload_files, upload_moves,
};
use crate::validate::FileEntry;

verus! {

// ---------------------------------------------------------------------------
// Paths
// ---------------------------------------------------------------------------

/// Whether a text can be one part of a path.
pub open spec fn is_part(s: Seq<char>) -> bool {
    s.len() > 0 && !s.contains('/') && s != "."@
}

/// Whether all texts can be parts of a path.
pub open spec fn are_parts(names: Seq<Seq<char>>) -> bool {
    forall|k: int| 0 <= k < names.len() ==> is_part(#[trigger] names[k])
}

proof fn lemma_parts_from(pieces: Seq<Seq<char>>, i: int)
    requires
        0 <= i <= pieces.len(),
        forall|k: int| i <= k < pieces.len() ==> is_part(#[trigger] pieces[k]),
    ensures
        parts_from(pieces, i) == pieces.skip(i),
    decreases pieces.len() - i,
{
    if i < pieces.len() {
        assert(is_part(pieces[i]));
        lemma_parts_from(pieces, i + 1);
        assert(pieces.skip(i) =~= seq![pieces[i]] + pieces.skip(i + 1));
    } else {
        assert(pieces.skip(i) =~= seq![]);
    }
}

/// A path has the parts that it is written with, whether it begins at the root or not. A slash
/// at its end makes no difference.
pub proof fn paths_have_their_parts(names: Seq<Seq<char>>)
    requires
        names.len() > 0,
        are_parts(names),
    ensures
        path_parts(join(names, "/"@)) == names,
        path_parts("/"@ + join(names, "/"@)) == names,
        path_parts(join(names, "/"@) + "/"@) == names,
        !starts_with(join(names, "/"@), "/"@),
{
    reveal_strlit("/");
    assert("/"@ =~= seq!['/']);
    let nothing = Seq::<char>::empty();
    split_undoes_join(names, '/');
    lemma_parts_from(names, 0);
    assert(names.skip(0) =~= names);
    let rooted = seq![nothing] + names;
    assert forall|k: int| 0 <= k < rooted.len() implies !(#[trigger] rooted[k]).contains('/') by {
        if k > 0 {
            assert(is_part(names[k - 1]));
        }
    }
    split_undoes_join(rooted, '/');
    lemma_join_from_the_front(rooted, "/"@);
    assert(rooted.skip(1) =~= names);
    assert(nothing + "/"@ + join(names, "/"@) =~= "/"@ + join(names, "/"@));
    assert forall|k: int| 1 <= k < rooted.len() implies is_part(#[trigger] rooted[k]) by {
        assert(is_part(names[k - 1]));
    }
    lemma_parts_from(rooted, 1);
    assert(parts_from(rooted, 0) == parts_from(rooted, 1));
    let ended = names.push(nothing);
    assert forall|k: int| 0 <= k < ended.len() implies !(#[trigger] ended[k]).contains('/') by {
        if k < names.len() {
            assert(is_part(names[k]));
        }
    }
    split_undoes_join(ended, '/');
    assert(ended.drop_last() =~= names);
    assert(join(ended, "/"@) =~= join(names, "/"@) + "/"@);
    lemma_ended_parts(names, 0);
    lemma_first_of_join(names);
}

proof fn lemma_ended_parts(names: Seq<Seq<char>>, i: int)
    requires
        0 <= i <= names.len(),
        are_parts(names),
    ensures
        parts_from(names.push(Seq::empty()), i) == names.skip(i),
    decreases names.len() - i,
{
    let ended = names.push(Seq::<char>::empty());
    if i < names.len() {
        assert(is_part(names[i]));
        assert(ended[i] == names[i]);
        lemma_ended_parts(names, i + 1);
        assert(names.skip(i) =~= seq![names[i]] + names.skip(i + 1));
    } else {
        assert(names.skip(i) =~= seq![]);
        assert(parts_from(ended, i + 1) == Seq::<Seq<char>>::empty());
        assert(parts_from(ended, i) == parts_from(ended, i + 1));
    }
}

proof fn lemma_first_of_join(names: Seq<Seq<char>>)
    requires
        names.len() > 0,
        are_parts(names),
    ensures
        join(names, "/"@).len() > 0,
        join(names, "/"@)[0] == names[0][0],
        !starts_with(join(names, "/"@), "/"@),
{
    reveal_strlit("/");
    let all = join(names, "/"@);
    assert(is_part(names[0]));
    if names.len() > 1 {
        lemma_join_from_the_front(names, "/"@);
    }
    assert(all[0] == names[0][0]);
    assert(names[0].contains(names[0][0]));
    if starts_with(all, "/"@) {
        assert(all.take(1)[0] == '/');
    }
}

/// Two paths from the root are the same just if their parts are, and so are two others; a path
/// from the root and another never are.
pub proof fn paths_are_their_parts(a: Seq<Seq<char>>, b: Seq<Seq<char>>)
    requires
        a.len() > 0,
        b.len() > 0,
        are_parts(a),
        are_parts(b),
    ensures
        same_path(join(a, "/"@), join(b, "/"@)) <==> a == b,
        same_path("/"@ + join(a, "/"@), "/"@ + join(b, "/"@)) <==> a == b,
        !same_path(join(a, "/"@), "/"@ + join(b, "/"@)),
        same_path(join(a, "/"@), join(a, "/"@) + "/"@),
{
    reveal_strlit("/");
    paths_have_their_parts(a);
    paths_have_their_parts(b);
    lemma_begins_at_root(a);
    lemma_begins_at_root(b);
    lemma_first_of_join(a);
    let ended = join(a, "/"@) + "/"@;
    if starts_with(ended, "/"@) {
        assert(ended.take(1)[0] == a[0][0]);
        assert(is_part(a[0]));
        assert(a[0].contains(a[0][0]));
    }
}

proof fn lemma_begins_at_root(names: Seq<Seq<char>>)
    ensures
        starts_with("/"@ + join(names, "/"@), "/"@),
{
    let path = "/"@ + join(names, "/"@);
    assert(path.take("/"@.len() as int) =~= "/"@);
}

/// What lies below a directory is found by the parts behind those of the directory, and nothing
/// else lies below it.
pub proof fn ways_lead_below(base: Seq<Seq<char>>, names: Seq<Seq<char>>)
    requires
        base.len() > 0,
        names.len() > 0,
        are_parts(base),
        are_parts(names),
    ensures
        relative_path("/"@ + join(names, "/"@), "/"@ + join(base, "/"@)) == if base.is_prefix_of(
            names,
        ) {
            Some(join(names.skip(base.len() as int), "/"@))
        } else {
            None
        },
        relative_path(join(names, "/"@), "/"@ + join(base, "/"@)) is None,
{
    paths_have_their_parts(base);
    paths_have_their_parts(names);
    lemma_begins_at_root(base);
    lemma_begins_at_root(names);
}

// ---------------------------------------------------------------------------
// Uploads
// ---------------------------------------------------------------------------

/// The directory that a pattern fixes is made of the parts before the first with a special
/// character.
pub proof fn patterns_fix_their_plain_parts(names: Seq<Seq<char>>, n: int)
    requires
        0 <= n <= names.len(),
        names.len() > 0,
        are_parts(names),
        forall|k: int| 0 <= k < names.len() ==> #[trigger] names[k] != ".."@,
        forall|k: int| 0 <= k < n ==> !has_wildcard(#[trigger] names[k]),
        n < names.len() ==> has_wildcard(names[n]),
    ensures
        fixed_prefix(join(names, "/"@)) == join(names.take(n), "/"@),
{
    paths_have_their_parts(names);
    lemma_fixed_count(names, 0, n);
}

proof fn lemma_fixed_count(names: Seq<Seq<char>>, i: int, n: int)
    requires
        0 <= i <= n <= names.len(),
        are_parts(names),
        forall|k: int| 0 <= k < names.len() ==> #[trigger] names[k] != ".."@,
        forall|k: int| 0 <= k < n ==> !has_wildcard(#[trigger] names[k]),
        n < names.len() ==> has_wildcard(names[n]),
    ensures
        fixed_count(names, i) == n - i,
    decreases n - i,
{
    if i < n {
        assert(is_part(names[i]));
        lemma_fixed_count(names, i + 1, n);
    }
}

/// Whether a match of a pattern is a file.
pub open spec fn is_matched_file(found: Result<UploadMatch, PlanError>) -> bool {
    found matches Ok(m) && m.is_file
}

/// Whether a match of a pattern was read and, if it is a file, lies below the directory `base`.
pub open spec fn can_be_placed(found: Result<UploadMatch, PlanError>, base: Seq<char>) -> bool {
    found matches Ok(m) && (m.is_file ==> relative_path(m.path@, base) is Some)
}

/// Whether a match of a pattern goes to its place: below the destination, by its path from the
/// directory `base`.
pub open spec fn goes_below(
    found: Result<UploadMatch, PlanError>,
    base: Seq<char>,
    dest: Seq<char>,
    file: Pair,
) -> bool {
    &&& found matches Ok(m)
    &&& m.is_file
    &&& file.0 == m.path@
    &&& relative_path(m.path@, base) matches Some(rest)
    &&& file.1 == joined_path(dest, rest)
}

/// The files that match a pattern are refused just if a match could not be read or one of the
/// files lies outside the directory that the pattern fixes.
pub proof fn matched_files_are_accepted_iff(
    src: Seq<char>,
    root: Seq<char>,
    dest: Seq<char>,
    matches: Seq<Result<UploadMatch, PlanError>>,
    n: nat,
)
    requires
        n <= matches.len(),
    ensures
        matched_files(src, root, dest, matches, n) is Ok <==> forall|k: int|
            0 <= k < n ==> can_be_placed(
                #[trigger] matches[k],
                joined_path(root, fixed_prefix(src)),
            ),
    decreases n,
{
    if n > 0 {
        let m = (n - 1) as nat;
        matched_files_are_accepted_iff(src, root, dest, matches, m);
        let base = joined_path(root, fixed_prefix(src));
        assert(matched_files(src, root, dest, matches, n) is Ok <==> matched_files(
            src,
            root,
            dest,
            matches,
            m,
        ) is Ok && can_be_placed(matches[m as int], base));
    }
}

/// The files that match a pattern are placed, every one of them, each below the destination by
/// its path from the directory that the pattern fixes, and in their order.
pub proof fn matched_files_are_placed(
    src: Seq<char>,
    root: Seq<char>,
    dest: Seq<char>,
    matches: Seq<Result<UploadMatch, PlanError>>,
    n: nat,
    k: int,
)
    requires
        0 <= k < n <= matches.len(),
        is_matched_file(matches[k]),
        matched_files(src, root, dest, matches, n) is Ok,
    ensures
        ({
            let base = joined_path(root, fixed_prefix(src));
            let files = matched_files(src, root, dest, matches, n)->Ok_0;
            exists|j: int|
                0 <= j < files.len() && j <= k && goes_below(
                    matches[k],
                    base,
                    dest,
                    #[trigger] files[j],
                )
        }),
    decreases n,
{
    let base = joined_path(root, fixed_prefix(src));
    let m = (n - 1) as nat;
    let files = matched_files(src, root, dest, matches, n)->Ok_0;
    let front = matched_files(src, root, dest, matches, m)->Ok_0;
    lemma_matched_count(src, root, dest, matches, m);
    if k < m {
        matched_files_are_placed(src, root, dest, matches, m, k);
        let j = choose|j: int|
            0 <= j < front.len() && j <= k && goes_below(
                matches[k],
                base,
                dest,
                #[trigger] front[j],
            );
        assert(files[j] == front[j]);
    } else {
        assert(goes_below(matches[k], base, dest, files[files.len() - 1]));
    }
}

proof fn lemma_matched_count(
    src: Seq<char>,
    root: Seq<char>,
    dest: Seq<char>,
    matches: Seq<Result<UploadMatch, PlanError>>,
    n: nat,
)
    ensures
        matched_files(src, root, dest, matches, n) matches Ok(files) ==> files.len() <= n,
    decreases n,
{
    if n > 0 {
        lemma_matched_count(src, root, dest, matches, (n - 1) as nat);
    }
}

/// Nothing is placed but files that match.
pub proof fn only_matched_files_are_placed(
    src: Seq<char>,
    root: Seq<char>,
    dest: Seq<char>,
    matches: Seq<Result<UploadMatch, PlanError>>,
    n: nat,
    j: int,
)
    requires
        n <= matches.len(),
        matched_files(src, root, dest, matches, n) is Ok,
        0 <= j < matched_files(src, root, dest, matches, n)->Ok_0.len(),
    ensures
        ({
            let base = joined_path(root, fixed_prefix(src));
            let files = matched_files(src, root, dest, matches, n)->Ok_0;
            exists|k: int|
                j <= k < n && goes_below(#[trigger] matches[k], base, dest, files[j])
        }),
    decreases n,
{
    let base = joined_path(root, fixed_prefix(src));
    let m = (n - 1) as nat;
    if n > 0 {
        let files = matched_files(src, root, dest, matches, n)->Ok_0;
        let front = matched_files(src, root, dest, matches, m)->Ok_0;
        lemma_matched_count(src, root, dest, matches, m);
        if j < front.len() {
            only_matched_files_are_placed(src, root, dest, matches, m, j);
            assert(files[j] == front[j]);
            let k = choose|k: int|
                j <= k < m && goes_below(#[trigger] matches[k], base, dest, front[j]);
            assert(goes_below(matches[k], base, dest, files[j]));
        } else {
            assert(goes_below(matches[m as int], base, dest, files[j]));
        }
    }
}

/// A file that is named goes to the destination, or below it under its own name if the
/// destination ends with a slash; it has to be there. What a pattern finds is placed unless it
/// finds nothing.
pub proof fn named_files_are_placed(
    root: Seq<Seq<char>>,
    names: Seq<Seq<char>>,
    upload: TopLevelUpload,
    present: bool,
)
    requires
        root.len() > 0,
        names.len() > 0,
        are_parts(root),
        are_parts(names),
        forall|k: int| 0 <= k < names.len() ==> #[trigger] names[k] != ".."@,
        trim(upload.src@) == join(names, "/"@),
    ensures
        ({
            let base = "/"@ + join(root, "/"@);
            let dest = trim(upload.dest@);
            let files = upload_files(base, upload, UploadFound::File { present });
            &&& files is Ok <==> present
            &&& files matches Ok(files) ==> {
                &&& files.len() == 1
                &&& files[0].0 == "/"@ + join(root + names, "/"@)
                &&& !ends_with(dest, "/"@) ==> files[0].1 == dest
                &&& ends_with(dest, "/"@) ==> files[0].1 == dest + names.last()
            }
        }),
{
    reveal_strlit("/");
    let base = "/"@ + join(root, "/"@);
    let src = join(names, "/"@);
    let all = root + names;
    assert forall|k: int| 0 <= k < all.len() implies is_part(#[trigger] all[k]) by {
        if k < root.len() {
            assert(is_part(root[k]));
        } else {
            assert(is_part(names[k - root.len()]));
        }
    }
    paths_have_their_parts(names);
    paths_have_their_parts(all);
    lemma_first_of_join(names);
    lemma_join_of_both(root, names);
    lemma_root_has_no_last_slash(root);
    assert(joined_path(base, src) =~= "/"@ + join(all, "/"@));
    assert(all.last() == names.last());
    assert(is_part(names[names.len() - 1]));
    assert(names.last() != ".."@);
    if leaves(path_parts(src)) {
        let k = choose|k: int| 0 <= k < names.len() && !is_name(#[trigger] names[k]);
        assert(is_part(names[k]));
    }
    let dest = trim(upload.dest@);
    if starts_with(names.last(), "/"@) {
        assert(names.last().take(1)[0] == '/');
        assert(names.last().contains('/'));
    }
    if ends_with(dest, "/"@) {
        assert(dest.len() > 0);
    }
}

proof fn lemma_join_of_both(a: Seq<Seq<char>>, b: Seq<Seq<char>>)
    requires
        a.len() > 0,
        b.len() > 0,
    ensures
        join(a + b, "/"@) == join(a, "/"@) + "/"@ + join(b, "/"@),
    decreases b.len(),
{
    let all = a + b;
    if b.len() == 1 {
        assert(all.drop_last() =~= a);
    } else {
        lemma_join_of_both(a, b.drop_last());
        assert(all.drop_last() =~= a + b.drop_last());
        assert(join(all, "/"@) =~= join(a, "/"@) + "/"@ + join(b, "/"@));
    }
}

proof fn lemma_root_has_no_last_slash(names: Seq<Seq<char>>)
    requires
        names.len() > 0,
        are_parts(names),
    ensures
        !ends_with("/"@ + join(names, "/"@), "/"@),
{
    reveal_strlit("/");
    let last = names.last();
    assert(is_part(names[names.len() - 1]));
    let path = "/"@ + join(names, "/"@);
    assert(path.last() == last.last());
    assert(last.contains(last[last.len() - 1]));
    if ends_with(path, "/"@) {
        assert(path.skip(path.len() - 1)[0] == '/');
    }
}

/// A source is looked for below the repository: as a pattern if it holds a special character,
/// and else as a file.
pub proof fn sources_are_looked_for(query: UploadQuery, root: Seq<char>, src: Seq<char>)
    requires
        asks_for(query, root, src),
    ensures
        match query {
            UploadQuery::Pattern { pattern } => has_wildcard(src) && pattern@ == joined_path(
                root,
                src,
            ),
            UploadQuery::File { path } => !has_wildcard(src) && path@ == joined_path(root, src),
        },
{
}

/// Whether the placing of uploads is over, and ended well or not.
pub open spec fn upload_ended(action: UploadAction, well: bool) -> bool {
    match action {
        UploadAction::Done(r) => r is Ok == well,
        _ => false,
    }
}

/// After a file was placed comes the next of its upload, or the next upload; what cannot be
/// placed ends it all with an error.
pub proof fn uploads_are_placed_in_order(
    pre: UploadStaging,
    event: UploadEvent,
    post: UploadStaging,
    line: Option<Seq<char>>,
    action: UploadAction,
)
    requires
        pre.wf(),
        pre.awaits(event),
        upload_moves(pre, event, post, line, action),
    ensures
        event matches UploadEvent::Placed(placed) ==> {
            &&& placed is Err ==> upload_ended(action, false)
            &&& placed is Ok && pre.index + 1 < pre.mappings@.len() ==> action
                == UploadAction::Place {
                entry: pre.entry,
                index: (pre.index + 1) as usize,
            }
            &&& placed is Ok && pre.index + 1 == pre.mappings@.len() && pre.entry + 1
                == pre.uploads@.len() ==> upload_ended(action, true)
            &&& placed is Ok && pre.index + 1 == pre.mappings@.len() && pre.entry + 1
                < pre.uploads@.len() ==> post.entry == pre.entry + 1 && (action is Look
                || upload_ended(action, false))
        },
        event is Begun && pre.uploads@.len() > 0 ==> post.entry == 0 && (action is Look
            || upload_ended(action, false)),
        upload_ended(action, true) ==> event is Placed || pre.uploads@.len() == 0,
        event matches UploadEvent::Found(found) ==> (action is Place <==> upload_files(
            pre.repo_root@,
            pre.uploads@[pre.entry as int],
            found,
        ) is Ok),
{
}

// ---------------------------------------------------------------------------
// Files of a plan
// ---------------------------------------------------------------------------

/// A file goes to its destination, or below it by its own path if the destination ends with a
/// slash. A source has to be a reference that leads to files.
pub proof fn files_are_mapped(
    file: FileEntry,
    resolved: Result<Vec<ResolvedFile>, PlanError>,
    mappings: Seq<FileMapping>,
    k: int,
)
    requires
        mapping_error(file, resolved) is None,
        places(mappings, resolved->Ok_0@, trim(file.dest@)),
        0 <= k < mappings.len(),
    ensures
        resolved is Ok,
        reference_of(trim(file.src@)) is Ok,
        mappings.len() == resolved->Ok_0@.len(),
        mappings[k].local_path@ == resolved->Ok_0@[k].local_path@,
        ({
            let dest = trim(file.dest@);
            let own = resolved->Ok_0@[k].relative_path@;
            &&& !ends_with(dest, "/"@) ==> mappings[k].guest_dest@ == dest
            &&& ends_with(dest, "/"@) && !starts_with(own, "/"@) ==> mappings[k].guest_dest@
                == dest + own
        }),
{
    reveal_strlit("/");
    let found = resolved->Ok_0@;
    assert(mappings[k].local_path@ == found[k].local_path@);
}

/// Whether the placing of files is over, and ended well or not.
pub open spec fn staging_ended(action: StagingAction, well: bool) -> bool {
    match action {
        StagingAction::Done(r) => r is Ok == well,
        _ => false,
    }
}

/// After a file was placed comes the next of its entry, or the next entry; what cannot be
/// resolved or placed ends it all with an error, and what is shown names the file.
pub proof fn files_are_placed_in_order(
    pre: FileStaging,
    event: StagingEvent,
    post: FileStaging,
    line: Option<Seq<char>>,
    action: StagingAction,
)
    requires
        pre.wf(),
        pre.awaits(event),
        staging_moves(pre, event, post, line, action),
    ensures
        event matches StagingEvent::Placed(placed) ==> {
            &&& placed is Err ==> staging_ended(action, false)
            &&& placed is Ok && pre.index + 1 < pre.mappings@.len() ==> action
                == StagingAction::Place {
                entry: pre.entry,
                index: (pre.index + 1) as usize,
            }
            &&& placed is Ok && pre.index + 1 == pre.mappings@.len() && pre.entry + 1
                < pre.files@.len() ==> action == StagingAction::Resolve {
                entry: (pre.entry + 1) as usize,
            }
            &&& placed is Ok && pre.index + 1 == pre.mappings@.len() && pre.entry + 1
                == pre.files@.len() ==> staging_ended(action, true)
            &&& line is Some <==> placed is Ok
        },
        event is Begun && pre.files@.len() > 0 ==> action == (StagingAction::Resolve { entry: 0 }),
        event matches StagingEvent::Resolved(resolved) ==> {
            let known = reference_of(trim(pre.files@[pre.entry as int].src@)) is Ok && resolved
                is Ok;
            &&& !known ==> staging_ended(action, false)
            &&& known && resolved->Ok_0@.len() > 0 ==> action
                == StagingAction::Place { entry: pre.entry, index: 0 }
            &&& known && resolved->Ok_0@.len() == 0 && pre.entry + 1 < pre.files@.len() ==> action
                == StagingAction::Resolve {
                entry: (pre.entry + 1) as usize,
            }
        },
{
}

// ---------------------------------------------------------------------------
// One file
// ---------------------------------------------------------------------------

/// A file that exists is not replaced unless it may be: where it may not, a file is installed
/// only after a look found nothing in its place. Where it may, a file is installed as soon as it
/// was copied.
pub proof fn existing_files_are_kept(start: GuestInstall, results: Seq<bool>)
    requires
        start.phase == InstallPhase::Start,
    ensures
        reached(start, results).opts == start.opts,
        reached(start, results).phase == InstallPhase::Installing <==> {
            &&& start.opts.overwrite == Some(false) ==> results.len() == 3 && results[1]
                && results[2]
            &&& start.opts.overwrite != Some(false) ==> results.len() == 2 && results[1]
        },
    decreases results.len(),
{
    reveal_with_fuel(reached, 5);
    lemma_reached_keeps(start, results);
    if results.len() > 3 {
        lemma_past_installing(start, results);
    }
}

proof fn lemma_reached_keeps(start: GuestInstall, results: Seq<bool>)
    ensures
        reached(start, results).opts == start.opts,
    decreases results.len(),
{
    if results.len() > 0 {
        lemma_reached_keeps(start, results.drop_last());
    }
}

proof fn lemma_past_installing(start: GuestInstall, results: Seq<bool>)
    requires
        start.phase == InstallPhase::Start,
        results.len() > 3,
    ensures
        ({
            let phase = reached(start, results).phase;
            phase == InstallPhase::Removing || phase == InstallPhase::Finished
        }),
    decreases results.len(),
{
    if results.len() > 4 {
        lemma_past_installing(start, results.drop_last());
    } else {
        reveal_with_fuel(reached, 5);
    }
}

/// A file that was installed is reported as such, and one that was refused, not copied or not
/// installed as an error.
pub proof fn installs_are_reported(state: GuestInstall, last: Result<(), PlanError>)
    ensures
        state.phase == InstallPhase::Removing ==> (state.ending(last) is None <==> state.failure
            is None),
        state.phase == InstallPhase::Refusing ==> state.ending(last) is Some,
        state.phase == InstallPhase::Copying && last is Err ==> state.next_phase(false)
            == InstallPhase::Finished && state.ending(last) is Some,
{
}

proof fn lemma_word_before(
    text: Seq<char>,
    meaning: Seq<char>,
    rest: Seq<char>,
    words: Seq<Seq<char>>,
)
    requires
        reads_as_word(text, meaning),
        command_words(rest, None, false) == Some(words),
    ensures
        command_words(text + (" "@ + rest), None, false) == Some(seq![meaning] + words),
{
    reveal_strlit(" ");
    let spaced = " "@ + rest;
    lemma_read(text, meaning, spaced);
    assert(spaced[0] == ' ' && spaced.skip(1) =~= rest);
}

/// The command that installs a file says what was asked for: a shell reads in it the mode, the
/// owner, the group, the file that was copied and its destination, each as it was given, and
/// directories are made unless they must not be.
pub proof fn install_commands_carry_their_values(
    opts: InstallOpts,
    remote_tmp: Seq<char>,
    dest: Seq<char>,
)
    requires
        opts.mode matches Some(mode) ==> is_literal_word(mode@),
    ensures
        ({
            let mode = match opts.mode {
                Some(mode) => mode@,
                None => "0644"@,
            };
            let owner = match opts.owner {
                Some(owner) => owner@,
                None => "root"@,
            };
            let group = match opts.group {
                Some(group) => group@,
                None => "root"@,
            };
            let made = if opts.parents == Some(false) {
                Seq::<Seq<char>>::empty()
            } else {
                seq!["-D"@]
            };
            command_words(opts.command(remote_tmp, dest), None, false) == Some(
                seq!["sudo"@, "install"@] + made + seq![
                    "-m"@,
                    mode,
                    "-o"@,
                    owner,
                    "-g"@,
                    group,
                    remote_tmp,
                    dest,
                ],
            )
        }),
{
    let mode = text_or(opts.mode, "0644"@);
    let owner = text_or(opts.owner, "root"@);
    let group = text_or(opts.group, "root"@);
    lemma_fixed_words();
    let t6 = owner_part(mode, owner, group, remote_tmp, dest);
    let w6 = seq![mode, "-o"@, owner, "-g"@, group, remote_tmp, dest];
    lemma_owner_part(mode, owner, group, remote_tmp, dest);
    lemma_word_before("-m"@, "-m"@, t6, w6);
    let t7 = "-m"@ + (" "@ + t6);
    let w7 = seq!["-m"@] + w6;
    lemma_word_before("-D"@, "-D"@, t7, w7);
    let made = if opts.parents == Some(false) {
        Seq::<Seq<char>>::empty()
    } else {
        seq!["-D"@]
    };
    let t8 = if opts.parents == Some(false) {
        t7
    } else {
        "-D"@ + (" "@ + t7)
    };
    let w8 = made + w7;
    assert(Seq::<Seq<char>>::empty() + w7 =~= w7);
    lemma_word_before("install"@, "install"@, t8, w8);
    let t9 = "install"@ + (" "@ + t8);
    let w9 = seq!["install"@] + w8;
    lemma_word_before("sudo"@, "sudo"@, t9, w9);
    lemma_lead(opts.parents == Some(false), t6);
    assert(opts.command(remote_tmp, dest) == "sudo"@ + (" "@ + t9)) by {
        lemma_owner_text(opts, remote_tmp, dest);
    }
    assert(seq!["sudo"@] + w9 =~= seq!["sudo"@, "install"@] + made + seq![
        "-m"@,
        mode,
        "-o"@,
        owner,
        "-g"@,
        group,
        remote_tmp,
        dest,
    ]);
}

/// What stands in the command that installs a file from the mode on.
spec fn owner_part(
    mode: Seq<char>,
    owner: Seq<char>,
    group: Seq<char>,
    remote_tmp: Seq<char>,
    dest: Seq<char>,
) -> Seq<char> {
    mode + (" "@ + ("-o"@ + (" "@ + (quoted(owner) + (" "@ + ("-g"@ + (" "@ + (quoted(group) + (
    " "@ + (quoted(remote_tmp) + (" "@ + quoted(dest))))))))))))
}

proof fn lemma_fixed_words()
    ensures
        reads_as_word("sudo"@, "sudo"@),
        reads_as_word("install"@, "install"@),
        reads_as_word("-D"@, "-D"@),
        reads_as_word("-m"@, "-m"@),
        reads_as_word("-o"@, "-o"@),
        reads_as_word("-g"@, "-g"@),
        is_literal_word("0644"@),
{
    reveal_strlit("sudo");
    reveal_strlit("install");
    reveal_strlit("-D");
    reveal_strlit("-m");
    reveal_strlit("-o");
    reveal_strlit("-g");
    reveal_strlit("0644");
    lemma_literal_is_word("sudo"@);
    lemma_literal_is_word("install"@);
    lemma_literal_is_word("-D"@);
    lemma_literal_is_word("-m"@);
    lemma_literal_is_word("-o"@);
    lemma_literal_is_word("-g"@);
}

proof fn lemma_owner_part(
    mode: Seq<char>,
    owner: Seq<char>,
    group: Seq<char>,
    remote_tmp: Seq<char>,
    dest: Seq<char>,
)
    requires
        is_literal_word(mode),
    ensures
        command_words(owner_part(mode, owner, group, remote_tmp, dest), None, false) == Some(
            seq![mode, "-o"@, owner, "-g"@, group, remote_tmp, dest],
        ),
{
    lemma_fixed_words();
    lemma_literal_is_word(mode);
    lemma_quote_is_word(owner);
    lemma_quote_is_word(group);
    lemma_quote_is_word(remote_tmp);
    lemma_quote_is_word(dest);
    let nothing = Seq::<char>::empty();
    lemma_read(quoted(dest), dest, nothing);
    let t0 = quoted(dest);
    assert(t0 + nothing =~= t0);
    let w0 = seq![dest];
    assert(command_words(t0, None, false) == Some(w0));
    lemma_word_before(quoted(remote_tmp), remote_tmp, t0, w0);
    let t1 = quoted(remote_tmp) + (" "@ + t0);
    let w1 = seq![remote_tmp] + w0;
    lemma_word_before(quoted(group), group, t1, w1);
    let t2 = quoted(group) + (" "@ + t1);
    let w2 = seq![group] + w1;
    lemma_word_before("-g"@, "-g"@, t2, w2);
    let t3 = "-g"@ + (" "@ + t2);
    let w3 = seq!["-g"@] + w2;
    lemma_word_before(quoted(owner), owner, t3, w3);
    let t4 = quoted(owner) + (" "@ + t3);
    let w4 = seq![owner] + w3;
    lemma_word_before("-o"@, "-o"@, t4, w4);
    let t5 = "-o"@ + (" "@ + t4);
    let w5 = seq!["-o"@] + w4;
    lemma_word_before(mode, mode, t5, w5);
    assert(seq![mode] + w5 =~= seq![mode, "-o"@, owner, "-g"@, group, remote_tmp, dest]);
}

proof fn lemma_owner_text(opts: InstallOpts, remote_tmp: Seq<char>, dest: Seq<char>)
    ensures
        opts.command(remote_tmp, dest) == (if opts.parents == Some(false) {
            "sudo install -m "@
        } else {
            "sudo install -D -m "@
        }) + owner_part(
            text_or(opts.mode, "0644"@),
            text_or(opts.owner, "root"@),
            text_or(opts.group, "root"@),
            remote_tmp,
            dest,
        ),
{
    let mode = text_or(opts.mode, "0644"@);
    let owner = quoted(text_or(opts.owner, "root"@));
    let group = quoted(text_or(opts.group, "root"@));
    let tmp = quoted(remote_tmp);
    let to = quoted(dest);
    let lead = if opts.parents == Some(false) {
        "sudo install -m "@
    } else {
        "sudo install -D -m "@
    };
    assert(" -g "@ == " "@ + ("-g"@ + " "@) && " -o "@ == " "@ + ("-o"@ + " "@)) by {
        reveal_strlit(" ");
        reveal_strlit("-o");
        reveal_strlit("-g");
        reveal_strlit(" -o ");
        reveal_strlit(" -g ");
        assert(" -g "@ =~= " "@ + ("-g"@ + " "@));
        assert(" -o "@ =~= " "@ + ("-o"@ + " "@));
    }
    let f1 = lead + mode;
    let f2 = f1 + " -o "@ + owner;
    let f3 = f2 + " -g "@ + group;
    let a = " "@ + (tmp + (" "@ + to));
    lemma_three(f3, " "@, tmp, " "@ + to);
    lemma_regroup(f3 + " "@ + tmp, " "@, to);
    assert(f3 + " "@ + tmp + " "@ + to == f3 + a);
    let b = " "@ + ("-g"@ + (" "@ + (group + a)));
    lemma_three(f2, " -g "@, group, a);
    lemma_three(" "@, "-g"@, " "@, group + a);
    lemma_regroup(" "@, "-g"@, " "@);
    assert(f3 + a == f2 + b);
    let c = " "@ + ("-o"@ + (" "@ + (owner + b)));
    lemma_three(f1, " -o "@, owner, b);
    lemma_three(" "@, "-o"@, " "@, owner + b);
    lemma_regroup(" "@, "-o"@, " "@);
    assert(f2 + b == f1 + c);
    lemma_regroup(lead, mode, c);
}

proof fn lemma_regroup(a: Seq<char>, b: Seq<char>, c: Seq<char>)
    ensures
        a + b + c == a + (b + c),
{
    assert(a + b + c =~= a + (b + c));
}

proof fn lemma_three(a: Seq<char>, b: Seq<char>, c: Seq<char>, d: Seq<char>)
    ensures
        a + b + c + d == a + (b + (c + d)),
{
    assert(a + b + c + d =~= a + (b + (c + d)));
}

proof fn lemma_lead(bare: bool, rest: Seq<char>)
    ensures
        bare ==> "sudo install -m "@ + rest == "sudo"@ + (" "@ + ("install"@ + (" "@ + ("-m"@ + (
        " "@ + rest))))),
        !bare ==> "sudo install -D -m "@ + rest == "sudo"@ + (" "@ + ("install"@ + (" "@ + ("-D"@
            + (" "@ + ("-m"@ + (" "@ + rest))))))),
{
    reveal_strlit(" ");
    reveal_strlit("sudo");
    reveal_strlit("install");
    reveal_strlit("-D");
    reveal_strlit("-m");
    reveal_strlit("sudo install -m ");
    reveal_strlit("sudo install -D -m ");
    if bare {
        assert("sudo install -m "@ + rest =~= "sudo"@ + (" "@ + ("install"@ + (" "@ + ("-m"@ + (
        " "@ + rest))))));
    } else {
        assert("sudo install -D -m "@ + rest =~= "sudo"@ + (" "@ + ("install"@ + (" "@ + ("-D"@ + (
        " "@ + ("-m"@ + (" "@ + rest))))))));
    }
}

/// The command that removes a temporary file names it as it is.
pub proof fn removals_name_their_file(state: GuestInstall)
    ensures
        command_words(state.removal(), None, false) == Some(
            seq!["rm"@, "-f"@, state.remote_tmp@],
        ),
{
    reveal_strlit(" ");
    reveal_strlit("rm");
    reveal_strlit("-f");
    reveal_strlit("rm -f ");
    let path = state.remote_tmp@;
    lemma_literal_is_word("rm"@);
    lemma_literal_is_word("-f"@);
    lemma_quote_is_word(path);
    let nothing = Seq::<char>::empty();
    lemma_read(quoted(path), path, nothing);
    assert(quoted(path) + nothing =~= quoted(path));
    assert(command_words(quoted(path), None, false) == Some(seq![path]));
    lemma_word_before("-f"@, "-f"@, quoted(path), seq![path]);
    let flagged = "-f"@ + (" "@ + quoted(path));
    lemma_word_before("rm"@, "rm"@, flagged, seq!["-f"@] + seq![path]);
    assert(state.removal() =~= "rm"@ + (" "@ + flagged));
    assert(seq!["rm"@] + (seq!["-f"@] + seq![path]) =~= seq!["rm"@, "-f"@, path]);
}

} // verus!
