//! Matching of names against shell-style patterns.

use vstd::prelude::*;
use vstd::string::*;

use crate::strings::contains_char;
use crate::text::texts;

verus! {

/// What `glob::Pattern::new(pattern)` followed by `Pattern::matches(text)` gives:
/// `None` if the pattern does not compile.
pub uninterp spec fn glob_result(pattern: Seq<char>, text: Seq<char>) -> Option<bool>;

/// Whether `s` holds a character that is special in a pattern: `*`, `?` or `[`.
pub open spec fn has_wildcard(s: Seq<char>) -> bool {
    s.contains('*') || s.contains('?') || s.contains('[')
}

/// Whether `s` holds a path separator.
pub open spec fn has_separator(s: Seq<char>) -> bool {
    s.contains('/') || s.contains('\\')
}

/// Compiles `pattern` with `glob::Pattern::new` and matches `text` with
/// `glob::Pattern::matches`; `None` if the pattern does not compile.
///
/// Trusted: what comes back is a function of the two texts, and a pattern that
/// holds neither a wildcard nor a path separator compiles and matches itself alone.
#[verifier::external_body]
fn glob_match(pattern: &str, text: &str) -> (r: Option<bool>)
    ensures
        r == glob_result(pattern@, text@),
        !has_wildcard(pattern@) && !has_separator(pattern@) ==> r == Some(text@ == pattern@),
{
    glob::Pattern::new(pattern).ok().map(|p| p.matches(text))
}

/// Whether `name` matches `pattern`. A pattern that does not compile stands for
/// the name `__no_match__`.
pub open spec fn pattern_matches(pattern: Seq<char>, name: Seq<char>) -> bool {
    match glob_result(pattern, name) {
        Some(matched) => matched,
        None => name == "__no_match__"@,
    }
}

/// Whether `s` holds a character that is special in a pattern: `*`, `?` or `[`.
pub fn is_glob_pattern(s: &str) -> (r: bool)
    ensures
        r == has_wildcard(s@),
{
    contains_char(s, '*') || contains_char(s, '?') || contains_char(s, '[')
}

/// What a pattern's result on a name means; `compiled` is what matching gave and
/// `fallback` whether the name is the one that stands for no match.
pub fn accept_match(compiled: Option<bool>, fallback: bool) -> (r: bool)
    ensures
        r == match compiled {
            Some(matched) => matched,
            None => fallback,
        },
{
    match compiled {
        Some(matched) => matched,
        None => fallback,
    }
}

/// Whether `name` matches `pattern`.
pub fn name_matches(pattern: &str, name: &str) -> (r: bool)
    ensures
        r == pattern_matches(pattern@, name@),
{
    let compiled = glob_match(pattern, name);
    let fallback = match glob_match("__no_match__", name) {
        Some(matched) => matched,
        None => false,
    };
    proof {
        reveal_strlit("__no_match__");
    }
    accept_match(compiled, fallback)
}

/// The names that match `pattern`, in order.
pub open spec fn matching(pattern: Seq<char>, names: Seq<Seq<char>>) -> Seq<Seq<char>>
    decreases names.len(),
{
    if names.len() == 0 {
        seq![]
    } else {
        let front = matching(pattern, names.drop_last());
        if pattern_matches(pattern, names.last()) {
            front.push(names.last())
        } else {
            front
        }
    }
}

/// The names that match `pattern`, in order.
pub fn matching_names(pattern: &str, names: &Vec<String>) -> (r: Vec<String>)
    ensures
        texts(r@) == matching(pattern@, texts(names@)),
{
    let mut r: Vec<String> = Vec::new();
    let ghost all = texts(names@);
    let mut i: usize = 0;
    assert(texts(r@) =~= matching(pattern@, all.take(0)));
    while i < names.len()
        invariant
            i <= names@.len(),
            all == texts(names@),
            texts(r@) == matching(pattern@, all.take(i as int)),
        decreases names@.len() - i,
    {
        let ghost had = texts(r@);
        assert(all.take(i + 1).drop_last() =~= all.take(i as int));
        assert(all.take(i + 1).last() == names@[i as int]@);
        if name_matches(pattern, names[i].as_str()) {
            r.push(names[i].clone());
            assert(texts(r@) =~= had.push(names@[i as int]@));
        }
        i += 1;
    }
    assert(all.take(i as int) =~= all);
    r
}

/// Every name that `matching` gives is one of the names and matches.
pub proof fn matching_names_match(pattern: Seq<char>, names: Seq<Seq<char>>, i: int)
    requires
        0 <= i < matching(pattern, names).len(),
    ensures
        names.contains(matching(pattern, names)[i]),
        pattern_matches(pattern, matching(pattern, names)[i]),
    decreases names.len(),
{
    let front = matching(pattern, names.drop_last());
    if i < front.len() {
        matching_names_match(pattern, names.drop_last(), i);
        let k = choose|k: int| 0 <= k < names.len() - 1 && names.drop_last()[k] == front[i];
        assert(names[k] == front[i]);
    } else {
        assert(names[names.len() - 1] == names.last());
    }
}

/// A name that matches is among those that `matching` gives.
pub proof fn matching_names_complete(pattern: Seq<char>, names: Seq<Seq<char>>, k: int)
    requires
        0 <= k < names.len(),
        pattern_matches(pattern, names[k]),
    ensures
        matching(pattern, names).contains(names[k]),
    decreases names.len(),
{
    let front = matching(pattern, names.drop_last());
    if k == names.len() - 1 {
        assert(front.push(names.last())[front.len() as int] == names[k]);
    } else {
        assert(names.drop_last()[k] == names[k]);
        matching_names_complete(pattern, names.drop_last(), k);
        let j = choose|j: int| 0 <= j < front.len() && front[j] == names[k];
        assert(matching(pattern, names)[j] == names[k]);
    }
}

} // verus!
