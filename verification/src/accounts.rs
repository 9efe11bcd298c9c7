//! The `assert.users:` and `assert.groups:` phases.

use vstd::prelude::*;
use vstd::string::*;

use crate::checks::{
    AssertReport, LineView, ReportLine, breaks_off, conclude, details, push_detail, push_details,
    push_status, report_lines, shows,
};
use crate::document::{AssertBlock, AssertGroup, AssertUser};
use crate::error::PlanError;
use crate::globbing::{matching, matching_names};
use crate::probe::{LineCursor, after_lines, line_or, select, selected, wants_groups};
use crate::strings::{
    cat2, cat3, cat4, cat5, cat6, cat7, same, text_before, text_words, without_prefix,
};
use crate::text::{before, lines, opt_slice, opt_text, starts_with, texts, words};

verus! {

// ---------------------------------------------------------------------------
// Dumps
// ---------------------------------------------------------------------------

/// The name that a line of a dump gives, unless it is empty or the installer's.
pub open spec fn dump_name(line: Seq<char>, installer: Option<Seq<char>>) -> Seq<Seq<char>> {
    let name = before(line, ':');
    if name.len() > 0 && Some(name) != installer {
        seq![name]
    } else {
        seq![]
    }
}

/// The names in the lines of a dump up to the line that ends it.
pub open spec fn dump_names(
    lines: Seq<Seq<char>>,
    sentinel: Seq<char>,
    installer: Option<Seq<char>>,
) -> Seq<Seq<char>>
    decreases lines.len(),
{
    if lines.len() == 0 || lines[0] == sentinel {
        seq![]
    } else {
        dump_name(lines[0], installer) + dump_names(lines.skip(1), sentinel, installer)
    }
}

/// The lines behind the line that ends a dump.
pub open spec fn behind(lines: Seq<Seq<char>>, sentinel: Seq<char>) -> Seq<Seq<char>>
    decreases lines.len(),
{
    if lines.len() == 0 {
        seq![]
    } else if lines[0] == sentinel {
        lines.skip(1)
    } else {
        behind(lines.skip(1), sentinel)
    }
}

/// Reads a dump of users or groups up to the line that ends it: the first field of
/// each line. The installer's own name is left out, so that no pattern sees it.
pub fn parse_names_from_dump(
    lines: &mut LineCursor,
    sentinel: &str,
    installer: Option<&str>,
) -> (r: Vec<String>)
    ensures
        texts(r@) == dump_names(old(lines).rest(), sentinel@, opt_slice(installer)),
        final(lines).rest() == behind(old(lines).rest(), sentinel@),
{
    let ghost all = lines.rest();
    let ghost inst = opt_slice(installer);
    let mut names: Vec<String> = Vec::new();
    assert(texts(names@) + dump_names(all, sentinel@, inst) =~= dump_names(all, sentinel@, inst));
    loop
        invariant
            all == old(lines).rest(),
            inst == opt_slice(installer),
            texts(names@) + dump_names(lines.rest(), sentinel@, inst) == dump_names(
                all,
                sentinel@,
                inst,
            ),
            behind(lines.rest(), sentinel@) == behind(all, sentinel@),
        decreases lines.rest().len(),
    {
        let ghost rest = lines.rest();
        let ghost had = texts(names@);
        match lines.next() {
            None => {
                assert(had + dump_names(rest, sentinel@, inst) =~= had);
                assert(rest =~= seq![]);
                return names;
            },
            Some(line) => {
                if same(line.as_str(), sentinel) {
                    assert(had + dump_names(rest, sentinel@, inst) =~= had);
                    return names;
                }
                let name = text_before(line.as_str(), ':');
                let is_installer = match installer {
                    Some(i) => same(i, name.as_str()),
                    None => false,
                };
                let ghost view = name@;
                if !name.as_str().is_empty() && !is_installer {
                    names.push(name);
                    assert(texts(names@) =~= had + dump_name(rest[0], inst));
                } else {
                    assert(had =~= had + dump_name(rest[0], inst));
                }
                assert(texts(names@) + dump_names(rest.skip(1), sentinel@, inst) =~= had + (
                dump_name(rest[0], inst) + dump_names(rest.skip(1), sentinel@, inst)));
            },
        }
    }
}

/// The installer's name is never among the names of a dump.
pub proof fn installer_is_invisible(
    lines: Seq<Seq<char>>,
    sentinel: Seq<char>,
    installer: Seq<char>,
)
    ensures
        !dump_names(lines, sentinel, Some(installer)).contains(installer),
    decreases lines.len(),
{
    let found = dump_names(lines, sentinel, Some(installer));
    if lines.len() > 0 && lines[0] != sentinel {
        installer_is_invisible(lines.skip(1), sentinel, installer);
        let first = dump_name(lines[0], Some(installer));
        let rest = dump_names(lines.skip(1), sentinel, Some(installer));
        if found.contains(installer) {
            let i = choose|i: int| 0 <= i < found.len() && found[i] == installer;
            if i < first.len() {
                assert(first[i] == installer);
            } else {
                assert(rest[i - first.len()] == installer);
            }
        }
    }
}

/// Leaving out an installer leaves out nothing else: every other name of the dump
/// is still there.
pub proof fn others_stay_visible(
    lines: Seq<Seq<char>>,
    sentinel: Seq<char>,
    installer: Seq<char>,
    name: Seq<char>,
)
    requires
        name != installer,
    ensures
        dump_names(lines, sentinel, Some(installer)).contains(name) == dump_names(
            lines,
            sentinel,
            None,
        ).contains(name),
    decreases lines.len(),
{
    if lines.len() > 0 && lines[0] != sentinel {
        others_stay_visible(lines.skip(1), sentinel, installer, name);
        let f1 = dump_name(lines[0], Some(installer));
        let r1 = dump_names(lines.skip(1), sentinel, Some(installer));
        let f2 = dump_name(lines[0], None);
        let r2 = dump_names(lines.skip(1), sentinel, None);
        lemma_contains_in_sum(f1, r1, name);
        lemma_contains_in_sum(f2, r2, name);
        assert(f1.contains(name) == f2.contains(name)) by {
            let n = before(lines[0], ':');
            if f1.contains(name) {
                assert(f1[0] == name);
                assert(f2[0] == name);
            }
            if f2.contains(name) {
                assert(f2[0] == name);
                assert(f1[0] == name);
            }
        }
    }
}

proof fn lemma_contains_in_sum(a: Seq<Seq<char>>, b: Seq<Seq<char>>, x: Seq<char>)
    ensures
        (a + b).contains(x) == (a.contains(x) || b.contains(x)),
{
    if a.contains(x) {
        let i = choose|i: int| 0 <= i < a.len() && a[i] == x;
        assert((a + b)[i] == x);
    }
    if b.contains(x) {
        let i = choose|i: int| 0 <= i < b.len() && b[i] == x;
        assert((a + b)[a.len() + i] == x);
    }
    if (a + b).contains(x) {
        let i = choose|i: int| 0 <= i < (a + b).len() && (a + b)[i] == x;
        if i < a.len() {
            assert(a[i] == x);
        } else {
            assert(b[i - a.len()] == x);
        }
    }
}

// ---------------------------------------------------------------------------
// Patterns
// ---------------------------------------------------------------------------

/// How the installer is mentioned behind a pattern.
pub open spec fn exclusion(installer: Option<Seq<char>>) -> Seq<char> {
    match installer {
        Some(name) => " (excluding installer \""@ + name + "\")"@,
        None => seq![],
    }
}

/// The label of a pattern that a name must not match, and does.
pub open spec fn unwanted(
    noun: Seq<char>,
    pattern: Seq<char>,
    installer: Option<Seq<char>>,
    found: Seq<char>,
) -> Seq<char> {
    "expected no "@ + noun + " matching \""@ + pattern + "\""@ + exclusion(installer)
        + ", but found \""@ + found + "\""@
}

/// What the report shows of the first `n` names that match and must not.
pub open spec fn unwanted_lines(
    noun: Seq<char>,
    pattern: Seq<char>,
    installer: Option<Seq<char>>,
    found: Seq<Seq<char>>,
    n: nat,
) -> Seq<LineView>
    decreases n,
{
    if n == 0 {
        seq![]
    } else {
        let label = unwanted(noun, pattern, installer, found[n - 1]);
        unwanted_lines(noun, pattern, installer, found, (n - 1) as nat) + seq![
            LineView::Detail { text: label },
        ] + seq![LineView::Status { label: noun + "s: "@ + label, ok: false }]
    }
}

/// What the report shows of a pattern: with `exists` some name must match it,
/// without it none may.
pub open spec fn pattern_lines(
    noun: Seq<char>,
    pattern: Seq<char>,
    exists: bool,
    names: Seq<Seq<char>>,
    installer: Option<Seq<char>>,
) -> Seq<LineView> {
    let found = matching(pattern, names);
    if exists {
        if found.len() == 0 {
            let label = "expected a "@ + noun + " matching \""@ + pattern + "\", but none found"@;
            seq![LineView::Detail { text: label }] + seq![
                LineView::Status { label: noun + "s: "@ + label, ok: false },
            ]
        } else {
            seq![
                LineView::Status {
                    label: noun + "s: at least one "@ + noun + " matching \""@ + pattern + "\""@,
                    ok: true,
                },
            ]
        }
    } else if found.len() == 0 {
        seq![
            LineView::Status {
                label: noun + "s: no "@ + noun + " matching \""@ + pattern + "\""@ + exclusion(
                    installer,
                ),
                ok: true,
            },
        ]
    } else {
        unwanted_lines(noun, pattern, installer, found, found.len())
    }
}

fn exclusion_text(installer: Option<&str>) -> (r: String)
    ensures
        r@ == exclusion(opt_slice(installer)),
{
    match installer {
        Some(name) => cat3(" (excluding installer \"", name, "\")"),
        None => {
            let r = String::new();
            assert(r@ =~= exclusion(None));
            r
        },
    }
}

/// Adds to a report what it shows of a pattern.
fn push_pattern(
    report: &mut Vec<ReportLine>,
    noun: &str,
    pattern: &str,
    exists: bool,
    names: &Vec<String>,
    installer: Option<&str>,
)
    ensures
        report_lines(final(report)@) == report_lines(old(report)@) + pattern_lines(
            noun@,
            pattern@,
            exists,
            texts(names@),
            opt_slice(installer),
        ),
{
    let ghost had = report_lines(report@);
    let ghost inst = opt_slice(installer);
    let found = matching_names(pattern, names);
    let ghost fs = texts(found@);
    assert(fs.len() == found@.len());
    if exists {
        if found.len() == 0 {
            let label = cat5("expected a ", noun, " matching \"", pattern, "\", but none found");
            push_detail(report, label.as_str());
            push_status(report, cat3(noun, "s: ", label.as_str()), false);
            assert(report_lines(report@) =~= had + pattern_lines(
                noun@,
                pattern@,
                exists,
                texts(names@),
                inst,
            ));
        } else {
            push_status(
                report,
                cat6(noun, "s: at least one ", noun, " matching \"", pattern, "\""),
                true,
            );
        }
    } else if found.len() == 0 {
        let tail = exclusion_text(installer);
        push_status(
            report,
            cat7(noun, "s: no ", noun, " matching \"", pattern, "\"", tail.as_str()),
            true,
        );
    } else {
        let tail = exclusion_text(installer);
        let mut i: usize = 0;
        assert(had + unwanted_lines(noun@, pattern@, inst, fs, 0) =~= had);
        while i < found.len()
            invariant
                i <= found@.len(),
                fs == texts(found@),
                tail@ == exclusion(inst),
                report_lines(report@) == had + unwanted_lines(
                    noun@,
                    pattern@,
                    inst,
                    fs,
                    i as nat,
                ),
            decreases found@.len() - i,
        {
            let ghost so_far = unwanted_lines(noun@, pattern@, inst, fs, i as nat);
            let head = cat6("expected no ", noun, " matching \"", pattern, "\"", tail.as_str());
            let label = cat4(head.as_str(), ", but found \"", found[i].as_str(), "\"");
            assert(label@ == unwanted(noun@, pattern@, inst, fs[i as int]));
            push_detail(report, label.as_str());
            let shown = cat3(noun, "s: ", label.as_str());
            push_status(report, shown, false);
            assert(report_lines(report@) =~= had + (so_far + seq![
                LineView::Detail { text: label@ },
            ] + seq![LineView::Status { label: shown@, ok: false }]));
            i += 1;
        }
    }
}

// ---------------------------------------------------------------------------
// Users
// ---------------------------------------------------------------------------

/// What is wrong with a user of whom the probe printed `line`.
pub open spec fn user_failures(name: Seq<char>, expected: AssertUser, line: Seq<char>) -> Seq<
    Seq<char>,
> {
    if line == "absent"@ {
        if expected.exists {
            seq!["user "@ + name + ": expected present, got absent"@]
        } else {
            seq![]
        }
    } else if !expected.exists {
        seq!["user "@ + name + ": expected absent, but present"@]
    } else if !starts_with(line, "present:"@) {
        seq!["assert.users: unexpected probe output for '"@ + name + "': "@ + line]
    } else {
        let shell = line.skip("present:"@.len() as int);
        match opt_text(expected.shell) {
            Some(want) if want != shell => seq![
                "user "@ + name + ": shell expected "@ + want + ", got "@ + shell,
            ],
            _ => seq![],
        }
    }
}

/// What is wrong with a user's existence and login shell. The installer's name
/// does not matter here: only patterns leave it out.
pub fn check_one_user(
    name: &str,
    expectation: &AssertUser,
    raw_line: &str,
    _installer_username: Option<&str>,
) -> (r: Vec<String>)
    ensures
        texts(r@) == user_failures(name@, *expectation, raw_line@),
{
    let mut failures: Vec<String> = Vec::new();
    let ghost want = user_failures(name@, *expectation, raw_line@);
    if same(raw_line, "absent") {
        if expectation.exists {
            failures.push(cat3("user ", name, ": expected present, got absent"));
        }
        assert(texts(failures@) =~= want);
        return failures;
    }
    if !expectation.exists {
        failures.push(cat3("user ", name, ": expected absent, but present"));
        assert(texts(failures@) =~= want);
        return failures;
    }
    match without_prefix(raw_line, "present:") {
        None => {
            failures.push(
                cat4("assert.users: unexpected probe output for '", name, "': ", raw_line),
            );
        },
        Some(shell) => {
            if let Some(expected) = &expectation.shell {
                if !same(expected.as_str(), shell.as_str()) {
                    failures.push(
                        cat6(
                            "user ",
                            name,
                            ": shell expected ",
                            expected.as_str(),
                            ", got ",
                            shell.as_str(),
                        ),
                    );
                }
            }
        },
    }
    assert(texts(failures@) =~= want);
    failures
}

/// What is missing of the first `n` groups that a user must be in.
pub open spec fn group_failures(
    name: Seq<char>,
    required: Seq<Seq<char>>,
    actual: Seq<Seq<char>>,
    n: nat,
) -> Seq<Seq<char>>
    decreases n,
{
    if n == 0 {
        seq![]
    } else {
        let front = group_failures(name, required, actual, (n - 1) as nat);
        if actual.contains(required[n - 1]) {
            front
        } else {
            front.push(
                "user "@ + name + ": missing required group \""@ + required[n - 1] + "\""@,
            )
        }
    }
}

/// Whether `wanted` is one of `list`.
pub(crate) fn is_among(list: &Vec<String>, wanted: &str) -> (r: bool)
    ensures
        r == texts(list@).contains(wanted@),
{
    let ghost all = texts(list@);
    let mut i: usize = 0;
    while i < list.len()
        invariant
            i <= list@.len(),
            all == texts(list@),
            forall|j: int| 0 <= j < i ==> #[trigger] all[j] != wanted@,
        decreases list@.len() - i,
    {
        assert(all[i as int] == list@[i as int]@);
        if same(list[i].as_str(), wanted) {
            return true;
        }
        i += 1;
    }
    false
}

/// Which of the groups that a user must be in are missing from the line of groups.
pub fn check_user_groups(name: &str, expectation: &AssertUser, groups_line: &str) -> (r: Vec<
    String,
>)
    ensures
        texts(r@) == group_failures(
            name@,
            texts(expectation.groups@),
            words(groups_line@),
            expectation.groups@.len(),
        ),
{
    let actual = text_words(groups_line);
    let ghost have = words(groups_line@);
    let ghost required = texts(expectation.groups@);
    let mut failures: Vec<String> = Vec::new();
    let mut i: usize = 0;
    assert(texts(failures@) =~= seq![]);
    while i < expectation.groups.len()
        invariant
            i <= expectation.groups@.len(),
            have == texts(actual@),
            required == texts(expectation.groups@),
            texts(failures@) == group_failures(name@, required, have, i as nat),
        decreases expectation.groups@.len() - i,
    {
        let ghost had = texts(failures@);
        let group = expectation.groups[i].as_str();
        assert(required[i as int] == group@);
        if !is_among(&actual, group) {
            let text = cat5("user ", name, ": missing required group \"", group, "\"");
            failures.push(text);
            assert(texts(failures@) =~= had.push(text@));
        }
        i += 1;
    }
    failures
}

/// How many of the first `n` users have their groups looked at.
pub open spec fn grouped_before(users: Seq<(String, AssertUser)>, n: nat) -> nat
    decreases n,
{
    if n == 0 {
        0
    } else {
        grouped_before(users, (n - 1) as nat) + if wants_groups(users[n - 1].1) {
            1nat
        } else {
            0nat
        }
    }
}

/// What the report shows of a user, given the user's line and line of groups.
pub open spec fn user_lines(
    name: Seq<char>,
    expected: AssertUser,
    line: Seq<char>,
    groups_line: Seq<char>,
) -> Seq<LineView> {
    let failures = user_failures(name, expected, line);
    let missing = group_failures(
        name,
        texts(expected.groups@),
        words(groups_line),
        expected.groups@.len(),
    );
    seq![LineView::Status { label: "user "@ + name, ok: failures.len() == 0 }] + details(failures)
        + if !wants_groups(expected) {
        seq![]
    } else if missing.len() > 0 {
        seq![LineView::Status { label: "user "@ + name + " groups"@, ok: false }] + details(missing)
    } else if failures.len() == 0 {
        seq![LineView::Status { label: "user "@ + name + " groups"@, ok: true }]
    } else {
        seq![]
    }
}

/// What the report shows of the first `n` named users. The lines of all named
/// users come first, then the lines of groups.
pub open spec fn named_users_report(
    users: Seq<(String, AssertUser)>,
    lines: Seq<Seq<char>>,
    n: nat,
) -> Seq<LineView>
    decreases n,
{
    if n == 0 {
        seq![]
    } else {
        let i = n - 1;
        named_users_report(users, lines, i as nat) + user_lines(
            users[i].0@,
            users[i].1,
            line_or(lines, i, "absent"@),
            line_or(lines, (users.len() + grouped_before(users, i as nat)) as int, ""@),
        )
    }
}

/// What the report shows of the first `n` patterns of users.
pub open spec fn user_patterns_report(
    users: Seq<(String, AssertUser)>,
    names: Seq<Seq<char>>,
    installer: Option<Seq<char>>,
    n: nat,
) -> Seq<LineView>
    decreases n,
{
    if n == 0 {
        seq![]
    } else {
        let i = n - 1;
        user_patterns_report(users, names, installer, i as nat) + pattern_lines(
            "user"@,
            users[i].0@,
            users[i].1.exists,
            names,
            installer,
        )
    }
}

/// What the report of a user probe shows.
pub open spec fn users_report(
    users: Seq<(String, AssertUser)>,
    lines: Seq<Seq<char>>,
    installer: Option<Seq<char>>,
) -> Seq<LineView> {
    let exact = selected(users, false);
    let patterns = selected(users, true);
    let read = exact.len() + grouped_before(exact, exact.len());
    let names = dump_names(after_lines(lines, read as int), "__END_PASSWD__"@, installer);
    named_users_report(exact, lines, exact.len()) + user_patterns_report(
        patterns,
        names,
        installer,
        patterns.len(),
    )
}

/// Reads `n` lines of a probe, `missing` for each line that is not there.
fn read_lines(cursor: &mut LineCursor, n: usize, missing: &str) -> (r: Vec<String>)
    ensures
        r@.len() == n,
        forall|j: int|
            0 <= j < n ==> (#[trigger] r@[j])@ == line_or(old(cursor).rest(), j, missing@),
        final(cursor).rest() == after_lines(old(cursor).rest(), n as int),
{
    let ghost all = cursor.rest();
    let mut r: Vec<String> = Vec::new();
    let mut i: usize = 0;
    assert(after_lines(all, 0) =~= all);
    while i < n
        invariant
            i <= n,
            r@.len() == i,
            cursor.rest() == after_lines(all, i as int),
            forall|j: int| 0 <= j < i ==> (#[trigger] r@[j])@ == line_or(all, j, missing@),
        decreases n - i,
    {
        let line = cursor.next_or(missing);
        assert(line@ == line_or(all, i as int, missing@));
        assert(cursor.rest() =~= after_lines(all, i + 1));
        r.push(line);
        i += 1;
    }
    r
}

/// Holds what a user probe printed against what is expected of the users.
pub fn evaluate_users(
    users: &Vec<(String, AssertUser)>,
    probe_output: &str,
    installer_username: Option<&str>,
) -> (r: AssertReport)
    ensures
        shows(
            r,
            users_report(users@, lines(probe_output@), opt_slice(installer_username)),
            "one or more assert.users: checks failed"@,
        ),
{
    let ghost ls = lines(probe_output@);
    let ghost inst = opt_slice(installer_username);
    let exact = select(users, false);
    let patterns = select(users, true);
    let ghost ex = exact@.unref();
    let ghost pats = patterns@.unref();
    let mut grouped_count: usize = 0;
    let mut i: usize = 0;
    while i < exact.len()
        invariant
            i <= exact@.len(),
            ex == exact@.unref(),
            grouped_count <= i,
            grouped_count == grouped_before(ex, i as nat),
        decreases exact@.len() - i,
    {
        assert(ex[i as int] == *exact@[i as int]);
        if exact[i].1.exists && exact[i].1.groups.len() > 0 {
            grouped_count += 1;
        }
        i += 1;
    }
    let mut cursor = LineCursor::new(probe_output);
    let user_line = read_lines(&mut cursor, exact.len(), "absent");
    let ghost after_users = cursor.rest();
    let group_line = read_lines(&mut cursor, grouped_count, "");
    proof {
        assert forall|j: int| 0 <= j < grouped_count implies (#[trigger] group_line@[j])@
            == line_or(ls, ex.len() + j, ""@) by {
            assert(group_line@[j]@ == line_or(after_users, j, ""@));
        }
        assert(cursor.rest() =~= after_lines(ls, ex.len() + grouped_count));
    }
    let mut report: Vec<ReportLine> = Vec::new();
    assert(report_lines(report@) =~= seq![]);
    let mut k: usize = 0;
    let mut g: usize = 0;
    while k < exact.len()
        invariant
            k <= exact@.len(),
            ex == exact@.unref(),
            ls == lines(probe_output@),
            user_line@.len() == exact@.len(),
            group_line@.len() == grouped_count,
            grouped_count == grouped_before(ex, ex.len()),
            g == grouped_before(ex, k as nat),
            forall|j: int|
                0 <= j < exact@.len() ==> (#[trigger] user_line@[j])@ == line_or(
                    ls,
                    j,
                    "absent"@,
                ),
            forall|j: int|
                0 <= j < grouped_count ==> (#[trigger] group_line@[j])@ == line_or(
                    ls,
                    ex.len() + j,
                    ""@,
                ),
            report_lines(report@) == named_users_report(ex, ls, k as nat),
        decreases exact@.len() - k,
    {
        let ghost had = report_lines(report@);
        assert(ex[k as int] == *exact@[k as int]);
        let name = exact[k].0.as_str();
        let expectation = &exact[k].1;
        let failures = check_one_user(
            name,
            expectation,
            user_line[k].as_str(),
            installer_username,
        );
        assert(texts(failures@).len() == failures@.len());
        let ok = failures.len() == 0;
        push_status(&mut report, cat2("user ", name), ok);
        push_details(&mut report, &failures);
        if expectation.exists && expectation.groups.len() > 0 {
            proof {
                lemma_grouped_before(ex, (k + 1) as nat, ex.len());
            }
            let missing = check_user_groups(name, expectation, group_line[g].as_str());
            assert(texts(missing@).len() == missing@.len());
            if missing.len() > 0 {
                push_status(&mut report, cat3("user ", name, " groups"), false);
                push_details(&mut report, &missing);
            } else if ok {
                push_status(&mut report, cat3("user ", name, " groups"), true);
            }
            g += 1;
        }
        assert(report_lines(report@) =~= had + user_lines(
            name@,
            *expectation,
            line_or(ls, k as int, "absent"@),
            line_or(ls, (ex.len() + grouped_before(ex, k as nat)) as int, ""@),
        ));
        k += 1;
    }
    let ghost named = report_lines(report@);
    if patterns.len() > 0 {
        let names = parse_names_from_dump(&mut cursor, "__END_PASSWD__", installer_username);
        let ghost all = texts(names@);
        let mut p: usize = 0;
        assert(named + user_patterns_report(pats, all, inst, 0) =~= named);
        while p < patterns.len()
            invariant
                p <= patterns@.len(),
                pats == patterns@.unref(),
                all == texts(names@),
                inst == opt_slice(installer_username),
                report_lines(report@) == named + user_patterns_report(
                    pats,
                    all,
                    inst,
                    p as nat,
                ),
            decreases patterns@.len() - p,
        {
            let ghost so_far = user_patterns_report(pats, all, inst, p as nat);
            assert(pats[p as int] == *patterns@[p as int]);
            push_pattern(
                &mut report,
                "user",
                patterns[p].0.as_str(),
                patterns[p].1.exists,
                &names,
                installer_username,
            );
            assert(report_lines(report@) =~= named + (so_far + pattern_lines(
                "user"@,
                pats[p as int].0@,
                pats[p as int].1.exists,
                all,
                inst,
            )));
            p += 1;
        }
    } else {
        assert(named =~= users_report(users@, ls, inst));
    }
    conclude(report, "one or more assert.users: checks failed")
}

proof fn lemma_grouped_before(users: Seq<(String, AssertUser)>, a: nat, b: nat)
    requires
        a <= b,
    ensures
        grouped_before(users, a) <= grouped_before(users, b),
    decreases b,
{
    if a < b {
        lemma_grouped_before(users, a, (b - 1) as nat);
    }
}

/// Runs the `assert.users:` phase on what its probe gave.
pub fn run_assert_users(
    assert_block: &AssertBlock,
    installer_username: Option<&str>,
    probe: &Result<String, PlanError>,
) -> (r: AssertReport)
    ensures
        assert_block.users@.len() == 0 ==> r.outcome is Ok && r.lines@.len() == 0,
        assert_block.users@.len() > 0 && probe is Err ==> r.outcome is Err,
        assert_block.users@.len() == 0 ==> shows(r, seq![], ""@),
        assert_block.users@.len() > 0 ==> match probe {
            Ok(output) => shows(
                r,
                users_report(
                    assert_block.users@,
                    lines(output@),
                    opt_slice(installer_username),
                ),
                "one or more assert.users: checks failed"@,
            ),
            Err(e) => breaks_off(
                r,
                "assert.users: privileged probe failed: sudo -n not available or failed ("@ + e@
                    + ")"@,
            ),
        },
{
    if assert_block.users.len() == 0 {
        let lines: Vec<ReportLine> = Vec::new();
        assert(report_lines(lines@) =~= seq![]);
        return conclude(lines, "");
    }
    match probe {
        Ok(output) => evaluate_users(&assert_block.users, output.as_str(), installer_username),
        Err(e) => AssertReport {
            lines: Vec::new(),
            outcome: Err(
                PlanError::new(
                    cat3(
                        "assert.users: privileged probe failed: sudo -n not available or failed (",
                        e.message.as_str(),
                        ")",
                    ),
                ),
            ),
        },
    }
}

// ---------------------------------------------------------------------------
// Groups
// ---------------------------------------------------------------------------

/// What the report shows of a group, given the line of its probe.
pub open spec fn group_lines(name: Seq<char>, exists: bool, line: Seq<char>) -> Seq<LineView> {
    let ok = (line == "present"@) == exists;
    seq![LineView::Status { label: "group "@ + name, ok }] + if ok {
        seq![]
    } else if exists {
        seq![LineView::Detail { text: "group "@ + name + ": expected present, got absent"@ }]
    } else {
        seq![LineView::Detail { text: "group "@ + name + ": expected absent, but present"@ }]
    }
}

/// What the report shows of the first `n` named groups.
pub open spec fn named_groups_report(
    groups: Seq<(String, AssertGroup)>,
    lines: Seq<Seq<char>>,
    n: nat,
) -> Seq<LineView>
    decreases n,
{
    if n == 0 {
        seq![]
    } else {
        let i = n - 1;
        named_groups_report(groups, lines, i as nat) + group_lines(
            groups[i].0@,
            groups[i].1.exists,
            line_or(lines, i, "absent"@),
        )
    }
}

/// What the report shows of the first `n` patterns of groups.
pub open spec fn group_patterns_report(
    groups: Seq<(String, AssertGroup)>,
    names: Seq<Seq<char>>,
    installer: Option<Seq<char>>,
    n: nat,
) -> Seq<LineView>
    decreases n,
{
    if n == 0 {
        seq![]
    } else {
        let i = n - 1;
        group_patterns_report(groups, names, installer, i as nat) + pattern_lines(
            "group"@,
            groups[i].0@,
            groups[i].1.exists,
            names,
            installer,
        )
    }
}

/// What the report of a group probe shows.
pub open spec fn groups_report(
    groups: Seq<(String, AssertGroup)>,
    lines: Seq<Seq<char>>,
    installer: Option<Seq<char>>,
) -> Seq<LineView> {
    let exact = selected(groups, false);
    let patterns = selected(groups, true);
    let names = dump_names(
        after_lines(lines, exact.len() as int),
        "__END_GROUP__"@,
        installer,
    );
    named_groups_report(exact, lines, exact.len()) + group_patterns_report(
        patterns,
        names,
        installer,
        patterns.len(),
    )
}

/// Holds what a group probe printed against what is expected of the groups.
pub fn evaluate_groups(
    groups: &Vec<(String, AssertGroup)>,
    probe_output: &str,
    installer_username: Option<&str>,
) -> (r: AssertReport)
    ensures
        shows(
            r,
            groups_report(groups@, lines(probe_output@), opt_slice(installer_username)),
            "one or more assert.groups: checks failed"@,
        ),
{
    let ghost ls = lines(probe_output@);
    let ghost inst = opt_slice(installer_username);
    let exact = select(groups, false);
    let patterns = select(groups, true);
    let ghost ex = exact@.unref();
    let ghost pats = patterns@.unref();
    let mut cursor = LineCursor::new(probe_output);
    let mut report: Vec<ReportLine> = Vec::new();
    assert(report_lines(report@) =~= seq![]);
    assert(after_lines(ls, 0) =~= ls);
    let mut k: usize = 0;
    while k < exact.len()
        invariant
            k <= exact@.len(),
            ex == exact@.unref(),
            ls == lines(probe_output@),
            cursor.rest() == after_lines(ls, k as int),
            report_lines(report@) == named_groups_report(ex, ls, k as nat),
        decreases exact@.len() - k,
    {
        let ghost had = report_lines(report@);
        assert(ex[k as int] == *exact@[k as int]);
        let line = cursor.next_or("absent");
        assert(line@ == line_or(ls, k as int, "absent"@));
        assert(cursor.rest() =~= after_lines(ls, k + 1));
        let name = exact[k].0.as_str();
        let exists = exact[k].1.exists;
        let ok = same(line.as_str(), "present") == exists;
        push_status(&mut report, cat2("group ", name), ok);
        if !ok {
            let text = if exists {
                cat3("group ", name, ": expected present, got absent")
            } else {
                cat3("group ", name, ": expected absent, but present")
            };
            push_detail(&mut report, text.as_str());
        }
        assert(report_lines(report@) =~= had + group_lines(name@, exists, line@));
        k += 1;
    }
    let ghost named = report_lines(report@);
    if patterns.len() > 0 {
        let names = parse_names_from_dump(&mut cursor, "__END_GROUP__", installer_username);
        let ghost all = texts(names@);
        let mut p: usize = 0;
        assert(named + group_patterns_report(pats, all, inst, 0) =~= named);
        while p < patterns.len()
            invariant
                p <= patterns@.len(),
                pats == patterns@.unref(),
                all == texts(names@),
                inst == opt_slice(installer_username),
                report_lines(report@) == named + group_patterns_report(
                    pats,
                    all,
                    inst,
                    p as nat,
                ),
            decreases patterns@.len() - p,
        {
            let ghost so_far = group_patterns_report(pats, all, inst, p as nat);
            assert(pats[p as int] == *patterns@[p as int]);
            push_pattern(
                &mut report,
                "group",
                patterns[p].0.as_str(),
                patterns[p].1.exists,
                &names,
                installer_username,
            );
            assert(report_lines(report@) =~= named + (so_far + pattern_lines(
                "group"@,
                pats[p as int].0@,
                pats[p as int].1.exists,
                all,
                inst,
            )));
            p += 1;
        }
    } else {
        assert(named =~= groups_report(groups@, ls, inst));
    }
    conclude(report, "one or more assert.groups: checks failed")
}

/// Runs the `assert.groups:` phase on what its probe gave.
pub fn run_assert_groups(
    assert_block: &AssertBlock,
    installer_username: Option<&str>,
    probe: &Result<String, PlanError>,
) -> (r: AssertReport)
    ensures
        assert_block.groups@.len() == 0 ==> r.outcome is Ok && r.lines@.len() == 0,
        assert_block.groups@.len() > 0 && probe is Err ==> r.outcome is Err,
        assert_block.groups@.len() == 0 ==> shows(r, seq![], ""@),
        assert_block.groups@.len() > 0 ==> match probe {
            Ok(output) => shows(
                r,
                groups_report(
                    assert_block.groups@,
                    lines(output@),
                    opt_slice(installer_username),
                ),
                "one or more assert.groups: checks failed"@,
            ),
            Err(e) => breaks_off(
                r,
                "assert.groups: privileged probe failed: sudo -n not available or failed ("@ + e@
                    + ")"@,
            ),
        },
{
    if assert_block.groups.len() == 0 {
        let lines: Vec<ReportLine> = Vec::new();
        assert(report_lines(lines@) =~= seq![]);
        return conclude(lines, "");
    }
    match probe {
        Ok(output) => evaluate_groups(&assert_block.groups, output.as_str(), installer_username),
        Err(e) => AssertReport {
            lines: Vec::new(),
            outcome: Err(
                PlanError::new(
                    cat3(
                        "assert.groups: privileged probe failed: sudo -n not available or failed (",
                        e.message.as_str(),
                        ")",
                    ),
                ),
            ),
        },
    }
}

} // verus!
