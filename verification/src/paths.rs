//! Paths, written with slashes.

use vstd::prelude::*;
use vstd::string::*;

use crate::strings::{cat2, cat3, has_prefix, has_suffix, pieces, same};
use crate::text::{ends_with, split, starts_with, texts};

verus! {

/// `path`, taken from the directory `base`: an absolute path stands for itself.
pub open spec fn joined_path(base: Seq<char>, path: Seq<char>) -> Seq<char> {
    if base.len() == 0 || starts_with(path, "/"@) {
        path
    } else if ends_with(base, "/"@) {
        base + path
    } else {
        base + "/"@ + path
    }
}

/// `path`, taken from the directory `base`.
pub fn join_path(base: &str, path: &str) -> (r: String)
    ensures
        r@ == joined_path(base@, path@),
{
    if base.is_empty() || has_prefix(path, "/") {
        path.to_owned()
    } else if has_suffix(base, "/") {
        cat2(base, path)
    } else {
        cat3(base, "/", path)
    }
}

/// The parts of a path among the pieces of its text from the piece `i` on: pieces that
/// are empty are left out, and so is `.` unless it stands first.
pub open spec fn parts_from(pieces: Seq<Seq<char>>, i: int) -> Seq<Seq<char>>
    decreases pieces.len() - i,
{
    if i < 0 || i >= pieces.len() {
        seq![]
    } else if pieces[i].len() == 0 || (i > 0 && pieces[i] == "."@) {
        parts_from(pieces, i + 1)
    } else {
        seq![pieces[i]] + parts_from(pieces, i + 1)
    }
}

/// The parts of a path.
pub open spec fn path_parts(path: Seq<char>) -> Seq<Seq<char>> {
    parts_from(split(path, '/'), 0)
}

/// The parts of a path.
pub fn parts_of(path: &str) -> (r: Vec<String>)
    ensures
        texts(r@) == path_parts(path@),
{
    let all = pieces(path, '/');
    let ghost ps = texts(all@);
    let mut r: Vec<String> = Vec::new();
    assert(texts(r@) + parts_from(ps, 0) =~= parts_from(ps, 0));
    let mut i: usize = 0;
    while i < all.len()
        invariant
            i <= all@.len(),
            ps == texts(all@),
            texts(r@) + parts_from(ps, i as int) == parts_from(ps, 0),
        decreases all@.len() - i,
    {
        let ghost had = texts(r@);
        let part = all[i].as_str();
        assert(ps[i as int] == part@);
        if !(part.is_empty() || (i > 0 && same(part, "."))) {
            let owned = part.to_owned();
            r.push(owned);
            assert(texts(r@) =~= had.push(part@));
            assert(texts(r@) + parts_from(ps, i + 1) =~= had + (seq![part@] + parts_from(
                ps,
                i + 1,
            )));
        }
        i += 1;
    }
    assert(texts(r@) + parts_from(ps, i as int) =~= texts(r@));
    r
}

/// Whether two paths are the same: both or neither begin at the root, and their parts are the
/// same. Slashes that repeat, a slash at the end and a `.` on the way make no difference.
pub open spec fn same_path(a: Seq<char>, b: Seq<char>) -> bool {
    starts_with(a, "/"@) == starts_with(b, "/"@) && path_parts(a) == path_parts(b)
}

/// Whether two paths are the same.
pub fn is_same_path(a: &str, b: &str) -> (r: bool)
    ensures
        r == same_path(a@, b@),
{
    if has_prefix(a, "/") != has_prefix(b, "/") {
        return false;
    }
    let ps = parts_of(a);
    let qs = parts_of(b);
    let ghost pv = texts(ps@);
    let ghost qv = texts(qs@);
    assert(pv.len() == ps@.len() && qv.len() == qs@.len());
    if ps.len() != qs.len() {
        return false;
    }
    let mut i: usize = 0;
    while i < ps.len()
        invariant
            i <= ps@.len(),
            ps@.len() == qs@.len(),
            pv == texts(ps@),
            qv == texts(qs@),
            pv == path_parts(a@),
            qv == path_parts(b@),
            forall|k: int| 0 <= k < i ==> #[trigger] pv[k] == qv[k],
        decreases ps@.len() - i,
    {
        assert(pv[i as int] == ps@[i as int]@ && qv[i as int] == qs@[i as int]@);
        if !same(ps[i].as_str(), qs[i].as_str()) {
            return false;
        }
        i += 1;
    }
    assert(pv =~= qv);
    true
}

} // verus!
