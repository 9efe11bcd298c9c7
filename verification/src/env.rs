//! Environment files that steps write, and the environment that steps share.

use vstd::prelude::*;
use vstd::string::*;

use crate::error::PlanError;
use crate::pairs::{
    Pair, entry_of, index_of, lemma_entry_is, lemma_entry_of, names, pairs, value_of,
};
use crate::strings::{
    cat3, contains_char, joined, position, same, search, slice, text_lines, to_chars,
};
use crate::text::{find, find_char, join, lemma_find_from, lemma_split_at, lines, occurs_at, texts};

verus! {

// ---------------------------------------------------------------------------
// The file format
// ---------------------------------------------------------------------------

/// The name and the closing line of a multi-line value that `line` opens.
pub open spec fn heredoc(line: Seq<char>) -> Option<Pair> {
    match find(line, "<<"@) {
        Some(at) => {
            let name = line.take(at);
            let delimiter = line.skip(at + 2);
            if name.len() > 0 && !name.contains('=') && delimiter.len() > 0 {
                Some((name, delimiter))
            } else {
                None
            }
        },
        None => None,
    }
}

/// The name and value of a one-line assignment.
pub open spec fn assignment(line: Seq<char>) -> Option<Pair> {
    match find_char(line, '=') {
        Some(at) => if at > 0 {
            Some((line.take(at), line.skip(at + 1)))
        } else {
            None
        },
        None => None,
    }
}

/// The first of `lines` that equals `wanted`.
pub open spec fn find_line(lines: Seq<Seq<char>>, wanted: Seq<char>) -> Option<int>
    decreases lines.len(),
{
    if lines.len() == 0 {
        None
    } else if lines[0] == wanted {
        Some(0int)
    } else {
        match find_line(lines.skip(1), wanted) {
            Some(k) => Some(k + 1),
            None => None,
        }
    }
}

/// `front` before the entries of `r`.
pub open spec fn prepend(front: Seq<Pair>, r: Result<Seq<Pair>, Seq<char>>) -> Result<
    Seq<Pair>,
    Seq<char>,
> {
    match r {
        Ok(rest) => Ok(front + rest),
        Err(name) => Err(name),
    }
}

/// The assignments that the lines of an environment file make, in order, or the
/// name of the first multi-line value that is not closed.
pub open spec fn env_entries(lines: Seq<Seq<char>>) -> Result<Seq<Pair>, Seq<char>>
    decreases lines.len(),
{
    if lines.len() == 0 {
        Ok(seq![])
    } else {
        match heredoc(lines[0]) {
            Some((name, delimiter)) => match find_line(lines.skip(1), delimiter) {
                Some(k) if 0 <= k < lines.len() - 1 => prepend(
                    seq![(name, join(lines.skip(1).take(k), "\n"@))],
                    env_entries(lines.skip(k + 2)),
                ),
                _ => Err(name),
            },
            None => prepend(
                match assignment(lines[0]) {
                    Some(pair) => seq![pair],
                    None => seq![],
                },
                env_entries(lines.skip(1)),
            ),
        }
    }
}

proof fn lemma_find_line(lines: Seq<Seq<char>>, wanted: Seq<char>)
    ensures
        match find_line(lines, wanted) {
            Some(k) => 0 <= k < lines.len() && lines[k] == wanted,
            None => true,
        },
    decreases lines.len(),
{
    if lines.len() > 0 && lines[0] != wanted {
        lemma_find_line(lines.skip(1), wanted);
    }
}

proof fn lemma_prepend_twice(a: Seq<Pair>, b: Seq<Pair>, r: Result<Seq<Pair>, Seq<char>>)
    ensures
        prepend(a, prepend(b, r)) == prepend(a + b, r),
{
    if let Ok(rest) = r {
        assert(a + (b + rest) =~= a + b + rest);
    }
}

/// The name and closing line of a multi-line value that `line` opens.
fn heredoc_of(line: &str) -> (r: Option<(String, String)>)
    ensures
        match r {
            Some(p) => heredoc(line@) == Some((p.0@, p.1@)),
            None => heredoc(line@) is None,
        },
{
    let v = to_chars(line);
    let mark = to_chars("<<");
    proof {
        reveal_strlit("<<");
    }
    match search(&v, &mark, 0) {
        Some(at) => {
            let name = slice(&v, 0, at);
            if at > 0 && !contains_char(name.as_str(), '=') && at + 2 < v.len() {
                Some((name, slice(&v, at + 2, v.len())))
            } else {
                None
            }
        },
        None => None,
    }
}

/// The name and value of a one-line assignment.
fn assignment_of(line: &str) -> (r: Option<(String, String)>)
    ensures
        match r {
            Some(p) => assignment(line@) == Some((p.0@, p.1@)),
            None => assignment(line@) is None,
        },
{
    let v = to_chars(line);
    match position(&v, '=', 0) {
        Some(at) => if at > 0 {
            Some((slice(&v, 0, at), slice(&v, at + 1, v.len())))
        } else {
            None
        },
        None => None,
    }
}

/// Reads an environment file: the pairs it assigns, in the order of its lines.
///
/// A line `NAME=value` assigns everything behind the first `=`. A line
/// `NAME<<DELIMITER` opens a value of several lines, which ends at a line equal
/// to the delimiter. Other lines are skipped.
pub fn parse_env_file(contents: &str) -> (r: Result<Vec<(String, String)>, PlanError>)
    ensures
        match r {
            Ok(entries) => env_entries(lines(contents@)) == Ok::<Seq<Pair>, Seq<char>>(
                pairs(entries@),
            ),
            Err(e) => env_entries(lines(contents@)) matches Err(name) && e@
                == "unterminated heredoc for key '"@ + name + "'"@,
        },
{
    let all = text_lines(contents);
    let ghost ls = texts(all@);
    let mut result: Vec<(String, String)> = Vec::new();
    let mut i: usize = 0;
    assert(ls.skip(0) =~= ls);
    assert(pairs(result@) =~= seq![]);
    proof {
        if let Ok(rest) = env_entries(ls) {
            assert(seq![] + rest =~= rest);
        }
    }
    while i < all.len()
        invariant
            i <= all@.len(),
            ls == texts(all@),
            ls == lines(contents@),
            prepend(pairs(result@), env_entries(ls.skip(i as int))) == env_entries(ls),
        decreases all@.len() - i,
    {
        let ghost had = pairs(result@);
        let ghost rest = ls.skip(i as int);
        assert(rest[0] == all@[i as int]@);
        match heredoc_of(all[i].as_str()) {
            Some(opened) => {
                let mut value_lines: Vec<String> = Vec::new();
                let mut k: usize = i + 1;
                assert(ls.skip(k as int) =~= rest.skip(1));
                assert(texts(value_lines@) =~= rest.skip(1).take(0));
                while k < all.len() && !same(all[k].as_str(), opened.1.as_str())
                    invariant
                        i < k <= all@.len(),
                        ls == texts(all@),
                        rest == ls.skip(i as int),
                        texts(value_lines@) == rest.skip(1).take(k - i - 1),
                        find_line(rest.skip(1), opened.1@) == match find_line(
                            ls.skip(k as int),
                            opened.1@,
                        ) {
                            Some(n) => Some(n + k - i - 1),
                            None => None,
                        },
                    decreases all@.len() - k,
                {
                    let ghost seen = value_lines@;
                    value_lines.push(all[k].clone());
                    proof {
                        assert(ls.skip(k as int)[0] == all@[k as int]@);
                        assert(ls.skip(k as int).skip(1) =~= ls.skip(k + 1));
                        assert(texts(value_lines@) =~= texts(seen).push(all@[k as int]@));
                        assert(rest.skip(1).take(k - i) =~= rest.skip(1).take(k - i - 1).push(
                            rest.skip(1)[k - i - 1],
                        ));
                    }
                    k += 1;
                }
                if k >= all.len() {
                    assert(ls.skip(k as int).len() == 0);
                    return Err(
                        PlanError::new(
                            cat3("unterminated heredoc for key '", opened.0.as_str(), "'"),
                        ),
                    );
                }
                proof {
                    assert(ls.skip(k as int)[0] == all@[k as int]@);
                    assert(rest.skip(k - i - 1 + 2) =~= ls.skip(k + 1));
                }
                let value = joined(&value_lines, "\n");
                result.push((opened.0, value));
                proof {
                    assert(pairs(result@) =~= had + seq![(opened.0@, value@)]);
                    lemma_prepend_twice(
                        had,
                        seq![(opened.0@, value@)],
                        env_entries(ls.skip(k + 1)),
                    );
                }
                i = k + 1;
            },
            None => {
                assert(rest.skip(1) =~= ls.skip(i + 1));
                let single = assignment_of(all[i].as_str());
                let ghost added = match assignment(rest[0]) {
                    Some(pair) => seq![pair],
                    None => seq![],
                };
                if let Some(pair) = single {
                    result.push(pair);
                }
                proof {
                    assert(pairs(result@) =~= had + added);
                    lemma_prepend_twice(had, added, env_entries(ls.skip(i + 1)));
                }
                i += 1;
            },
        }
    }
    assert(ls.skip(i as int).len() == 0);
    assert(pairs(result@) + seq![] =~= pairs(result@));
    Ok(result)
}

// ---------------------------------------------------------------------------
// Merging
// ---------------------------------------------------------------------------

/// `env` with one more assignment: in place if the name is known, else behind.
pub open spec fn assigned(env: Seq<Pair>, pair: Pair) -> Seq<Pair> {
    match entry_of(env, pair.0) {
        Some(k) => env.update(k, pair),
        None => env.push(pair),
    }
}

/// `env` with the assignments of `new`, one after another.
pub open spec fn merged(env: Seq<Pair>, new: Seq<Pair>) -> Seq<Pair>
    decreases new.len(),
{
    if new.len() == 0 {
        env
    } else {
        assigned(merged(env, new.drop_last()), new.last())
    }
}

/// The value that the last assignment of `name` in `new` gives it.
pub open spec fn last_value(new: Seq<Pair>, name: Seq<char>) -> Option<Seq<char>>
    decreases new.len(),
{
    if new.len() == 0 {
        None
    } else if new.last().0 == name {
        Some(new.last().1)
    } else {
        last_value(new.drop_last(), name)
    }
}

/// Assigns one name: in place if it is known, else behind the others.
pub fn env_assign(env: &mut Vec<(String, String)>, name: String, value: String)
    ensures
        pairs(final(env)@) == assigned(pairs(old(env)@), (name@, value@)),
{
    let ghost had = pairs(env@);
    let ghost pair = (name@, value@);
    match index_of(env, name.as_str()) {
        Some(k) => {
            env.set(k, (name, value));
            assert(pairs(env@) =~= had.update(k as int, pair));
        },
        None => {
            env.push((name, value));
            assert(pairs(env@) =~= had.push(pair));
        },
    }
}

/// Merges `new_entries` into `accumulated`: a known name is updated in place, a
/// new one is appended, and of several assignments the last one stays.
pub fn env_merge(accumulated: &mut Vec<(String, String)>, new_entries: Vec<(String, String)>)
    ensures
        pairs(final(accumulated)@) == merged(pairs(old(accumulated)@), pairs(new_entries@)),
{
    let ghost before_all = pairs(accumulated@);
    let ghost new = pairs(new_entries@);
    let mut i: usize = 0;
    assert(new.take(0) =~= seq![]);
    while i < new_entries.len()
        invariant
            i <= new_entries@.len(),
            new == pairs(new_entries@),
            pairs(accumulated@) == merged(before_all, new.take(i as int)),
        decreases new_entries@.len() - i,
    {
        let ghost pair = new[i as int];
        let name = new_entries[i].0.clone();
        let value = new_entries[i].1.clone();
        assert(new.take(i + 1).drop_last() =~= new.take(i as int));
        assert(new.take(i + 1).last() == pair);
        env_assign(accumulated, name, value);
        i += 1;
    }
    assert(new.take(i as int) =~= new);
}

// ---------------------------------------------------------------------------
// Laws
// ---------------------------------------------------------------------------

/// After an assignment the name has the new value and every other name has the
/// value it had.
pub proof fn lemma_assigned_value(env: Seq<Pair>, pair: Pair, name: Seq<char>)
    ensures
        value_of(assigned(env, pair), name) == if name == pair.0 {
            Some(pair.1)
        } else {
            value_of(env, name)
        },
{
    let after = assigned(env, pair);
    lemma_entry_of(env, pair.0);
    lemma_entry_of(env, name);
    match entry_of(env, pair.0) {
        Some(k) => {
            if name == pair.0 {
                assert forall|j: int| 0 <= j < k implies (#[trigger] after[j]).0 != name by {
                    assert(env[j].0 != name);
                }
                lemma_entry_is(after, name, k);
            } else {
                match entry_of(env, name) {
                    Some(n) => {
                        assert forall|j: int| 0 <= j < n implies (#[trigger] after[j]).0 != name by {
                            assert(env[j].0 != name);
                        }
                        lemma_entry_is(after, name, n);
                    },
                    None => {
                        lemma_entry_of(after, name);
                        if let Some(n) = entry_of(after, name) {
                            assert(env[n].0 != name);
                        }
                    },
                }
            }
        },
        None => {
            if name == pair.0 {
                assert forall|j: int| 0 <= j < env.len() implies (#[trigger] after[j]).0 != name by {
                    assert(env[j].0 != name);
                }
                lemma_entry_is(after, name, env.len() as int);
            } else {
                match entry_of(env, name) {
                    Some(n) => {
                        assert forall|j: int| 0 <= j < n implies (#[trigger] after[j]).0 != name by {
                            assert(env[j].0 != name);
                        }
                        lemma_entry_is(after, name, n);
                    },
                    None => {
                        lemma_entry_of(after, name);
                        if let Some(n) = entry_of(after, name) {
                            if n < env.len() {
                                assert(env[n].0 != name);
                            }
                        }
                    },
                }
            }
        },
    }
}

/// The last write wins: after a merge a name has the value of its last
/// assignment among the new entries, and without one the value it had.
pub proof fn merge_last_write_wins(env: Seq<Pair>, new: Seq<Pair>, name: Seq<char>)
    ensures
        value_of(merged(env, new), name) == match last_value(new, name) {
            Some(v) => Some(v),
            None => value_of(env, name),
        },
    decreases new.len(),
{
    if new.len() > 0 {
        merge_last_write_wins(env, new.drop_last(), name);
        lemma_assigned_value(merged(env, new.drop_last()), new.last(), name);
    }
}

/// A merge keeps the order of the names that were there: they stand in front,
/// unchanged, and new names follow.
pub proof fn merge_keeps_order(env: Seq<Pair>, new: Seq<Pair>)
    ensures
        names(env).is_prefix_of(names(merged(env, new))),
    decreases new.len(),
{
    if new.len() == 0 {
        assert(names(env) =~= names(env).take(names(env).len() as int));
    } else {
        merge_keeps_order(env, new.drop_last());
        let m = merged(env, new.drop_last());
        lemma_entry_of(m, new.last().0);
        let after = names(merged(env, new));
        match entry_of(m, new.last().0) {
            Some(k) => {
                assert(after =~= names(m));
            },
            None => {
                assert(after =~= names(m).push(new.last().0));
                assert(after.take(names(env).len() as int) =~= names(m).take(
                    names(env).len() as int,
                ));
            },
        }
    }
}

/// If no name is assigned twice before a merge, none is afterwards.
pub proof fn merge_keeps_names_distinct(env: Seq<Pair>, new: Seq<Pair>)
    requires
        names(env).no_duplicates(),
    ensures
        names(merged(env, new)).no_duplicates(),
    decreases new.len(),
{
    if new.len() > 0 {
        merge_keeps_names_distinct(env, new.drop_last());
        let m = merged(env, new.drop_last());
        lemma_entry_of(m, new.last().0);
        let after = names(merged(env, new));
        match entry_of(m, new.last().0) {
            Some(k) => {
                assert(after =~= names(m));
            },
            None => {
                assert(after =~= names(m).push(new.last().0));
                assert forall|i: int, j: int|
                    0 <= i < after.len() && 0 <= j < after.len() && i != j implies after[i]
                    != after[j] by {
                    if i < m.len() {
                        assert(m[i].0 != new.last().0);
                    }
                    if j < m.len() {
                        assert(m[j].0 != new.last().0);
                    }
                }
            },
        }
    }
}

/// Merging nothing changes nothing.
pub proof fn merge_of_nothing(env: Seq<Pair>)
    ensures
        merged(env, seq![]) == env,
{
}

/// Merging in two steps is merging all at once.
pub proof fn merge_in_steps(env: Seq<Pair>, first: Seq<Pair>, second: Seq<Pair>)
    ensures
        merged(merged(env, first), second) == merged(env, first + second),
    decreases second.len(),
{
    if second.len() == 0 {
        assert(first + second =~= first);
    } else {
        merge_in_steps(env, first, second.drop_last());
        assert((first + second).drop_last() =~= first + second.drop_last());
        assert((first + second).last() == second.last());
    }
}

/// An environment file with a line for each pair.
pub open spec fn env_text(env: Seq<Pair>) -> Seq<char>
    decreases env.len(),
{
    if env.len() == 0 {
        seq![]
    } else {
        env[0].0 + seq!['='] + env[0].1 + seq!['\n'] + env_text(env.skip(1))
    }
}

/// Whether a pair can be written as one line: the name is not empty and holds
/// neither `=` nor `<<` nor a line feed, and the value holds no line feed and does
/// not end in a carriage return.
pub open spec fn one_line(pair: Pair) -> bool {
    &&& pair.0.len() > 0
    &&& !pair.0.contains('=')
    &&& find(pair.0, "<<"@) is None
    &&& !pair.0.contains('\n')
    &&& !pair.1.contains('\n')
    &&& pair.1.len() > 0 ==> pair.1.last() != '\r'
}

proof fn lemma_assigns(pair: Pair)
    requires
        one_line(pair),
    ensures
        assignment(pair.0 + seq!['='] + pair.1) == Some(pair),
{
    lemma_split_at(pair.0, '=', pair.1);
}

proof fn lemma_opens_nothing(pair: Pair)
    requires
        one_line(pair),
    ensures
        heredoc(pair.0 + seq!['='] + pair.1) is None,
{
    reveal_strlit("<<");
    let line = pair.0 + seq!['='] + pair.1;
    let n = pair.0.len() as int;
    // A mark behind the equals sign opens nothing.
    lemma_find_from(line, "<<"@, 0);
    lemma_find_from(pair.0, "<<"@, 0);
    if let Some(h) = find(line, "<<"@) {
        if h < n {
            if h + 2 <= n {
                assert(pair.0.subrange(h, h + 2) =~= line.subrange(h, h + 2));
                assert(occurs_at(pair.0, "<<"@, h));
            } else {
                assert(line.subrange(h, h + 2)[1] == '=');
            }
        } else {
            assert(line.take(h).contains('=')) by {
                if h > n {
                    assert(line.take(h)[n] == '=');
                } else {
                    assert(line.subrange(h, h + 2)[0] == '=');
                }
            }
        }
    }
}

proof fn lemma_one_line(pair: Pair, rest: Seq<char>)
    requires
        one_line(pair),
    ensures
        ({
            let line = pair.0 + seq!['='] + pair.1;
            let s = line + seq!['\n'] + rest;
            &&& heredoc(line) is None
            &&& assignment(line) == Some(pair)
            &&& lines(s) == seq![line] + lines(rest)
        }),
{
    let line = pair.0 + seq!['='] + pair.1;
    let n = pair.0.len() as int;
    lemma_assigns(pair);
    lemma_opens_nothing(pair);
    if line.contains('\n') {
        let k = choose|k: int| 0 <= k < line.len() && line[k] == '\n';
        if k < n {
            assert(pair.0[k] == '\n');
        } else if k > n {
            assert(pair.1[k - n - 1] == '\n');
        }
    }
    if pair.1.len() > 0 {
        assert(line.last() == pair.1.last());
    } else {
        assert(line.last() == '=');
    }
    lemma_first_line(line, rest);
}

/// Reading back a file that was written line by line gives the pairs that were
/// written.
pub proof fn env_file_reads_back(env: Seq<Pair>)
    requires
        forall|i: int| 0 <= i < env.len() ==> one_line(#[trigger] env[i]),
    ensures
        env_entries(lines(env_text(env))) == Ok::<Seq<Pair>, Seq<char>>(env),
    decreases env.len(),
{
    if env.len() == 0 {
        assert(env =~= seq![]);
    } else {
        let rest = env.skip(1);
        assert forall|i: int| 0 <= i < rest.len() implies one_line(#[trigger] rest[i]) by {
            assert(rest[i] == env[i + 1]);
        }
        env_file_reads_back(rest);
        assert(one_line(env[0]));
        let line = env[0].0 + seq!['='] + env[0].1;
        lemma_one_line(env[0], env_text(rest));
        let ls = lines(env_text(env));
        assert(ls == seq![line] + lines(env_text(rest)));
        assert(ls.skip(1) =~= lines(env_text(rest)));
        assert(ls[0] == line);
        assert(seq![env[0]] + rest =~= env);
    }
}

/// Whether a text is one line: it holds no line feed, and no carriage return ends it.
pub open spec fn is_line(s: Seq<char>) -> bool {
    &&& !s.contains('\n')
    &&& s.len() > 0 ==> s.last() != '\r'
}

/// Lines as they are written to a file.
pub open spec fn written(ls: Seq<Seq<char>>) -> Seq<char>
    decreases ls.len(),
{
    if ls.len() == 0 {
        seq![]
    } else {
        ls[0] + seq!['\n'] + written(ls.skip(1))
    }
}

proof fn lemma_first_line(line: Seq<char>, rest: Seq<char>)
    requires
        is_line(line),
    ensures
        lines(line + seq!['\n'] + rest) == seq![line] + lines(rest),
{
    let s = line + seq!['\n'] + rest;
    let m = line.len() as int;
    lemma_find_from(s, seq!['\n'], 0);
    assert(s.subrange(m, m + 1) =~= seq!['\n']);
    assert(occurs_at(s, seq!['\n'], m));
    assert forall|j: int| 0 <= j < m implies !#[trigger] occurs_at(s, seq!['\n'], j) by {
        assert(s.subrange(j, j + 1)[0] == line[j]);
    }
    assert(find_char(s, '\n') == Some(m));
    assert(s.take(m) =~= line);
    assert(s.skip(m + 1) =~= rest);
}

/// Lines that were written are read back, with what stands behind them.
pub proof fn lemma_written_lines(ls: Seq<Seq<char>>, rest: Seq<char>)
    requires
        forall|i: int| 0 <= i < ls.len() ==> is_line(#[trigger] ls[i]),
    ensures
        lines(written(ls) + rest) == ls + lines(rest),
    decreases ls.len(),
{
    if ls.len() == 0 {
        assert(written(ls) + rest =~= rest);
        assert(ls + lines(rest) =~= lines(rest));
    } else {
        let others = ls.skip(1);
        assert forall|i: int| 0 <= i < others.len() implies is_line(#[trigger] others[i]) by {
            assert(others[i] == ls[i + 1]);
        }
        lemma_written_lines(others, rest);
        assert(is_line(ls[0]));
        lemma_first_line(ls[0], written(others) + rest);
        assert(written(ls) + rest =~= ls[0] + seq!['\n'] + (written(others) + rest));
        assert(ls + lines(rest) =~= seq![ls[0]] + (others + lines(rest)));
    }
}

proof fn lemma_opens(name: Seq<char>, delimiter: Seq<char>)
    requires
        name.len() > 0,
        !name.contains('='),
        find(name + seq!['<'], "<<"@) is None,
        delimiter.len() > 0,
    ensures
        heredoc(name + "<<"@ + delimiter) == Some((name, delimiter)),
{
    reveal_strlit("<<");
    let line = name + "<<"@ + delimiter;
    let n = name.len() as int;
    let front = name + seq!['<'];
    lemma_find_from(line, "<<"@, 0);
    lemma_find_from(front, "<<"@, 0);
    assert(line.subrange(n, n + 2) =~= "<<"@);
    assert(occurs_at(line, "<<"@, n));
    assert forall|j: int| 0 <= j < n implies !#[trigger] occurs_at(line, "<<"@, j) by {
        assert(line.subrange(j, j + 2) =~= front.subrange(j, j + 2));
        assert(!occurs_at(front, "<<"@, j));
    }
    assert(find(line, "<<"@) == Some(n));
    assert(line.take(n) =~= name);
    assert(line.skip(n + 2) =~= delimiter);
}

proof fn lemma_closes(value: Seq<Seq<char>>, delimiter: Seq<char>, rest: Seq<Seq<char>>)
    requires
        !value.contains(delimiter),
    ensures
        find_line(value + seq![delimiter] + rest, delimiter) == Some(value.len() as int),
    decreases value.len(),
{
    let all = value + seq![delimiter] + rest;
    if value.len() > 0 {
        let others = value.skip(1);
        assert(value.contains(value[0]));
        assert(all[0] == value[0]);
        assert(!others.contains(delimiter)) by {
            if others.contains(delimiter) {
                let k = choose|k: int| 0 <= k < others.len() && others[k] == delimiter;
                assert(value[k + 1] == delimiter);
            }
        }
        lemma_closes(others, delimiter, rest);
        assert(all.skip(1) =~= others + seq![delimiter] + rest);
    } else {
        assert(all[0] == delimiter);
    }
}

/// A value of several lines that was written under a name, none of whose lines is the one
/// that closes it, reads back, and so does what stands behind it in the file.
pub proof fn multi_line_values_read_back(
    name: Seq<char>,
    delimiter: Seq<char>,
    value: Seq<Seq<char>>,
    rest: Seq<char>,
)
    requires
        name.len() > 0,
        !name.contains('='),
        !name.contains('\n'),
        find(name + seq!['<'], "<<"@) is None,
        delimiter.len() > 0,
        is_line(delimiter),
        forall|i: int| 0 <= i < value.len() ==> is_line(#[trigger] value[i]),
        !value.contains(delimiter),
    ensures
        env_entries(
            lines(written(seq![name + "<<"@ + delimiter] + value + seq![delimiter]) + rest),
        ) == prepend(seq![(name, join(value, "\n"@))], env_entries(lines(rest))),
{
    let first = name + "<<"@ + delimiter;
    let block = seq![first] + value + seq![delimiter];
    reveal_strlit("<<");
    assert(is_line(first)) by {
        assert(first.last() == delimiter.last());
        if first.contains('\n') {
            let k = choose|k: int| 0 <= k < first.len() && first[k] == '\n';
            if k < name.len() {
                assert(name[k] == '\n');
            } else if k >= name.len() + 2 {
                assert(delimiter[k - name.len() - 2] == '\n');
            }
        }
    }
    assert forall|i: int| 0 <= i < block.len() implies is_line(#[trigger] block[i]) by {
        if 0 < i < block.len() - 1 {
            assert(block[i] == value[i - 1]);
        }
    }
    lemma_written_lines(block, rest);
    lemma_opens(name, delimiter);
    let all = block + lines(rest);
    assert(all[0] == first);
    assert(all.skip(1) =~= value + seq![delimiter] + lines(rest));
    lemma_closes(value, delimiter, lines(rest));
    assert(all.skip(1).take(value.len() as int) =~= value);
    assert(all.skip(value.len() as int + 2) =~= lines(rest));
}

} // verus!
