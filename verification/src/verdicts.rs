//! What the verdict of an `assert:` phase means: when it succeeds, told by what is expected and
//! what the probe printed.

use vstd::prelude::*;
use vstd::string::*;

use crate::accounts::{
    dump_name, dump_names, group_failures, group_lines, group_patterns_report, grouped_before,
    groups_report, named_groups_report, named_users_report, pattern_lines, unwanted,
    unwanted_lines, user_failures, user_lines, user_patterns_report, users_report,
};
use crate::checks::{
    AssertReport, LineView, ReportLine, any_failed, details, facts, file_failures, files_report,
    is_failure, is_mode, normal_mode, normal_modes_have_four_digits, octal_value, report_lines,
    shows,
};
use crate::document::{AssertFile, AssertGroup, AssertPackage, AssertService, AssertUser};
use crate::globbing::{
    has_wildcard, matching, matching_names_complete, matching_names_match, pattern_matches,
};
use crate::packages::{
    PluginCheck, active_state, aspect_lines, bool_word, dump_package, dump_packages,
    enabled_state, named_packages_report, package_lines, package_pattern_lines,
    package_patterns_report, packages_report, plugin_report, services_report, unwanted_packages,
};
use crate::probe::{after_lines, selected, wants_groups};
use crate::text::{
    after, before, is_trim, lemma_split_at, opt_text, texts, trim, trimmed_text_stays, words,
};
use crate::validate::is_octal;

verus! {

// ---------------------------------------------------------------------------
// Reports
// ---------------------------------------------------------------------------

proof fn lemma_failed_in_sum(a: Seq<LineView>, b: Seq<LineView>)
    ensures
        any_failed(a + b) == (any_failed(a) || any_failed(b)),
{
    let all = a + b;
    if any_failed(a) {
        let i = choose|i: int| 0 <= i < a.len() && is_failure(#[trigger] a[i]);
        assert(is_failure(all[i]));
    }
    if any_failed(b) {
        let i = choose|i: int| 0 <= i < b.len() && is_failure(#[trigger] b[i]);
        assert(is_failure(all[a.len() + i]));
    }
    if any_failed(all) {
        let i = choose|i: int| 0 <= i < all.len() && is_failure(#[trigger] all[i]);
        if i < a.len() {
            assert(is_failure(a[i]));
        } else {
            assert(is_failure(b[i - a.len()]));
        }
    }
}

proof fn lemma_no_lines()
    ensures
        !any_failed(Seq::<LineView>::empty()),
{
}

proof fn lemma_status(label: Seq<char>, ok: bool)
    ensures
        any_failed(seq![LineView::Status { label, ok }]) == !ok,
{
    let line = seq![LineView::Status { label, ok }];
    if !ok {
        assert(is_failure(line[0]));
    }
}

proof fn lemma_detail(text: Seq<char>)
    ensures
        !any_failed(seq![LineView::Detail { text }]),
{
}

proof fn lemma_details(failures: Seq<Seq<char>>)
    ensures
        !any_failed(details(failures)),
{
}

/// The line of a probe at a position; `missing` where the probe printed fewer lines.
pub open spec fn printed(lines: Seq<Seq<char>>, i: int, missing: Seq<char>) -> Seq<char> {
    if i < lines.len() {
        lines[i]
    } else {
        missing
    }
}

/// A phase fails exactly if one of the checks that it shows did not hold, and then with its own
/// message.
pub proof fn reports_tell_the_outcome(r: AssertReport, lines: Seq<LineView>, failure: Seq<char>)
    requires
        shows(r, lines, failure),
    ensures
        r.lines@.len() == lines.len(),
        r.outcome is Err <==> exists|i: int|
            0 <= i < r.lines@.len() && (#[trigger] r.lines@[i] matches ReportLine::Status {
                ok,
                ..
            } && !ok),
        r.outcome matches Err(e) ==> e@ == failure,
{
    let seen = report_lines(r.lines@);
    if any_failed(lines) {
        let i = choose|i: int| 0 <= i < lines.len() && is_failure(#[trigger] lines[i]);
        assert(seen[i] == r.lines@[i]@);
        assert(r.lines@[i] matches ReportLine::Status { ok, .. } && !ok);
    } else if exists|i: int|
        0 <= i < r.lines@.len() && (#[trigger] r.lines@[i] matches ReportLine::Status { ok, .. }
            && !ok) {
        let i = choose|i: int|
            0 <= i < r.lines@.len() && (#[trigger] r.lines@[i] matches ReportLine::Status {
                ok,
                ..
            } && !ok);
        assert(seen[i] == r.lines@[i]@);
        assert(is_failure(lines[i]));
    }
}

// ---------------------------------------------------------------------------
// Services
// ---------------------------------------------------------------------------

/// Whether a service whose states are `enabled` and `active` is as expected.
pub open spec fn service_as_expected(
    expected: AssertService,
    enabled: Seq<char>,
    active: Seq<char>,
) -> bool {
    &&& expected.enabled == Some(true) ==> enabled == "enabled"@
    &&& expected.enabled == Some(false) ==> enabled != "enabled"@
    &&& expected.active == Some(true) ==> active == "active"@
    &&& expected.active == Some(false) ==> active != "active"@
}

proof fn lemma_aspect(
    name: Seq<char>,
    aspect: Seq<char>,
    expected: Option<bool>,
    state: Seq<char>,
)
    ensures
        any_failed(aspect_lines(name, aspect, expected, state)) == (expected matches Some(want)
            && want != (state == aspect)),
{
    if let Some(want) = expected {
        let ok = (state == aspect) == want;
        let label = "service "@ + name + " "@ + aspect;
        let text = "service "@ + name + ": expected "@ + aspect + "="@ + bool_word(want)
            + ", but systemctl is-"@ + aspect + " returned '"@ + state + "'"@;
        lemma_status(label, ok);
        lemma_detail(text);
        lemma_failed_in_sum(
            seq![LineView::Status { label, ok }],
            if ok {
                seq![]
            } else {
                seq![LineView::Detail { text }]
            },
        );
    }
}

proof fn lemma_services(services: Seq<(String, AssertService)>, lines: Seq<Seq<char>>, n: nat)
    requires
        n <= services.len(),
    ensures
        any_failed(services_report(services, lines, n)) == !(forall|i: int|
            0 <= i < n ==> service_as_expected(
                (#[trigger] services[i]).1,
                enabled_state(printed(lines, i, ":"@)),
                active_state(printed(lines, i, ":"@)),
            )),
    decreases n,
{
    if n > 0 {
        let i = n - 1;
        lemma_services(services, lines, i as nat);
        let line = printed(lines, i, ":"@);
        let front = services_report(services, lines, i as nat);
        let name = services[i].0@;
        let e = aspect_lines(name, "enabled"@, services[i].1.enabled, enabled_state(line));
        let a = aspect_lines(name, "active"@, services[i].1.active, active_state(line));
        lemma_aspect(name, "enabled"@, services[i].1.enabled, enabled_state(line));
        lemma_aspect(name, "active"@, services[i].1.active, active_state(line));
        lemma_failed_in_sum(front, e);
        lemma_failed_in_sum(front + e, a);
        assert(services_report(services, lines, n) == front + e + a);
    }
}

/// The services phase succeeds exactly if each service is as expected: one that must be enabled
/// has the state `enabled` and one that must not be has another, and so with `active`.
pub proof fn services_succeed_iff(
    r: AssertReport,
    services: Seq<(String, AssertService)>,
    lines: Seq<Seq<char>>,
    failure: Seq<char>,
)
    requires
        shows(r, services_report(services, lines, services.len()), failure),
    ensures
        r.outcome is Ok <==> forall|i: int|
            0 <= i < services.len() ==> {
                let line = printed(lines, i, ":"@);
                let expected = (#[trigger] services[i]).1;
                &&& expected.enabled == Some(true) ==> enabled_state(line) == "enabled"@
                &&& expected.enabled == Some(false) ==> enabled_state(line) != "enabled"@
                &&& expected.active == Some(true) ==> active_state(line) == "active"@
                &&& expected.active == Some(false) ==> active_state(line) != "active"@
            },
{
    lemma_services(services, lines, services.len());
    let all = services.len();
    if r.outcome is Ok {
        assert forall|i: int| 0 <= i < all implies {
            let line = printed(lines, i, ":"@);
            let expected = (#[trigger] services[i]).1;
            &&& expected.enabled == Some(true) ==> enabled_state(line) == "enabled"@
            &&& expected.enabled == Some(false) ==> enabled_state(line) != "enabled"@
            &&& expected.active == Some(true) ==> active_state(line) == "active"@
            &&& expected.active == Some(false) ==> active_state(line) != "active"@
        } by {
            assert(service_as_expected(
                services[i].1,
                enabled_state(printed(lines, i, ":"@)),
                active_state(printed(lines, i, ":"@)),
            ));
        }
    }
}

/// The line `ENABLED:ACTIVE` of a service gives these two states.
pub proof fn service_lines_are_read(enabled: Seq<char>, active: Seq<char>)
    requires
        !enabled.contains(':'),
        is_trim(enabled),
        is_trim(active),
    ensures
        enabled_state(enabled + ":"@ + active) == enabled,
        active_state(enabled + ":"@ + active) == active,
        enabled_state(":"@) == Seq::<char>::empty(),
        active_state(":"@) == Seq::<char>::empty(),
{
    reveal_strlit(":");
    let none = Seq::<char>::empty();
    lemma_split_at(enabled, ':', active);
    assert(enabled + ":"@ + active =~= enabled + seq![':'] + active);
    lemma_split_at(none, ':', none);
    assert(":"@ =~= none + seq![':'] + none);
    trimmed_text_stays(enabled);
    trimmed_text_stays(active);
    trimmed_text_stays(none);
}

// ---------------------------------------------------------------------------
// Patterns
// ---------------------------------------------------------------------------

/// The entries with a pattern for a name are told from the others: each entry is selected as
/// one or the other, and nothing else is.
pub proof fn entries_are_told_apart<T>(entries: Seq<(String, T)>, patterns: bool, e: (String, T))
    ensures
        selected(entries, patterns).contains(e) <==> entries.contains(e) && has_wildcard(e.0@)
            == patterns,
        selected(entries, patterns).len() <= entries.len(),
    decreases entries.len(),
{
    if entries.len() > 0 {
        let front = entries.drop_last();
        entries_are_told_apart(front, patterns, e);
        let chosen = selected(entries, patterns);
        let before = selected(front, patterns);
        if entries.contains(e) && has_wildcard(e.0@) == patterns {
            if e == entries.last() {
                assert(chosen[before.len() as int] == e);
            } else {
                let i = choose|i: int| 0 <= i < entries.len() && entries[i] == e;
                assert(front[i] == e);
                let j = choose|j: int| 0 <= j < before.len() && before[j] == e;
                assert(chosen[j] == e);
            }
        }
        if chosen.contains(e) {
            let j = choose|j: int| 0 <= j < chosen.len() && chosen[j] == e;
            if j < before.len() {
                assert(before[j] == e);
                let i = choose|i: int| 0 <= i < front.len() && front[i] == e;
                assert(entries[i] == e);
            } else {
                assert(entries[entries.len() - 1] == e);
            }
        }
    }
}

/// Whether some name matches a pattern.
pub open spec fn some_match(pattern: Seq<char>, names: Seq<Seq<char>>) -> bool {
    exists|k: int| 0 <= k < names.len() && pattern_matches(pattern, #[trigger] names[k])
}

proof fn lemma_some_match(pattern: Seq<char>, names: Seq<Seq<char>>)
    ensures
        matching(pattern, names).len() > 0 <==> some_match(pattern, names),
{
    if matching(pattern, names).len() > 0 {
        matching_names_match(pattern, names, 0);
        let k = choose|k: int| 0 <= k < names.len() && names[k] == matching(pattern, names)[0];
        assert(pattern_matches(pattern, names[k]));
    }
    if some_match(pattern, names) {
        let k = choose|k: int| 0 <= k < names.len() && pattern_matches(pattern, #[trigger] names[k]);
        matching_names_complete(pattern, names, k);
    }
}

proof fn lemma_unwanted(
    noun: Seq<char>,
    pattern: Seq<char>,
    installer: Option<Seq<char>>,
    found: Seq<Seq<char>>,
    n: nat,
)
    ensures
        any_failed(unwanted_lines(noun, pattern, installer, found, n)) == (n > 0),
    decreases n,
{
    if n > 0 {
        lemma_unwanted(noun, pattern, installer, found, (n - 1) as nat);
        let label = unwanted(noun, pattern, installer, found[n - 1]);
        let front = unwanted_lines(noun, pattern, installer, found, (n - 1) as nat);
        let status = seq![LineView::Status { label: noun + "s: "@ + label, ok: false }];
        lemma_status(noun + "s: "@ + label, false);
        lemma_failed_in_sum(front + seq![LineView::Detail { text: label }], status);
    }
}

proof fn lemma_pattern(
    noun: Seq<char>,
    pattern: Seq<char>,
    exists_: bool,
    names: Seq<Seq<char>>,
    installer: Option<Seq<char>>,
)
    ensures
        any_failed(pattern_lines(noun, pattern, exists_, names, installer)) == (some_match(
            pattern,
            names,
        ) != exists_),
{
    lemma_some_match(pattern, names);
    let found = matching(pattern, names);
    let missing = "expected a "@ + noun + " matching \""@ + pattern + "\", but none found"@;
    let status = seq![LineView::Status { label: noun + "s: "@ + missing, ok: false }];
    lemma_status(noun + "s: "@ + missing, false);
    lemma_failed_in_sum(seq![LineView::Detail { text: missing }], status);
    lemma_unwanted(noun, pattern, installer, found, found.len());
}

// ---------------------------------------------------------------------------
// Groups
// ---------------------------------------------------------------------------

proof fn lemma_named_groups(groups: Seq<(String, AssertGroup)>, lines: Seq<Seq<char>>, n: nat)
    requires
        n <= groups.len(),
    ensures
        any_failed(named_groups_report(groups, lines, n)) == !(forall|i: int|
            0 <= i < n ==> (#[trigger] groups[i]).1.exists == (printed(lines, i, "absent"@)
                == "present"@)),
    decreases n,
{
    if n > 0 {
        let i = n - 1;
        lemma_named_groups(groups, lines, i as nat);
        let line = printed(lines, i, "absent"@);
        let name = groups[i].0@;
        let ok = (line == "present"@) == groups[i].1.exists;
        let front = named_groups_report(groups, lines, i as nat);
        let part = group_lines(name, groups[i].1.exists, line);
        let status = seq![LineView::Status { label: "group "@ + name, ok }];
        lemma_status("group "@ + name, ok);
        let rest = part.skip(1);
        assert(part =~= status + rest);
        assert(!any_failed(rest));
        lemma_failed_in_sum(status, rest);
        lemma_failed_in_sum(front, part);
        assert(groups[i].1.exists == (line == "present"@) <==> ok);
    }
}

proof fn lemma_group_patterns(
    groups: Seq<(String, AssertGroup)>,
    names: Seq<Seq<char>>,
    installer: Option<Seq<char>>,
    n: nat,
)
    requires
        n <= groups.len(),
    ensures
        any_failed(group_patterns_report(groups, names, installer, n)) == !(forall|i: int|
            0 <= i < n ==> (#[trigger] groups[i]).1.exists == some_match(groups[i].0@, names)),
    decreases n,
{
    if n > 0 {
        let i = n - 1;
        lemma_group_patterns(groups, names, installer, i as nat);
        let front = group_patterns_report(groups, names, installer, i as nat);
        let part = pattern_lines("group"@, groups[i].0@, groups[i].1.exists, names, installer);
        lemma_pattern("group"@, groups[i].0@, groups[i].1.exists, names, installer);
        lemma_failed_in_sum(front, part);
        assert(group_patterns_report(groups, names, installer, n) == front + part);
    }
}

/// The groups phase succeeds exactly if each named group is there just if it must be, and some
/// group of the guest matches each pattern just if one must. The lines of the named groups come
/// first, and then all groups.
pub proof fn groups_succeed_iff(
    r: AssertReport,
    groups: Seq<(String, AssertGroup)>,
    lines: Seq<Seq<char>>,
    installer: Option<Seq<char>>,
    failure: Seq<char>,
)
    requires
        shows(r, groups_report(groups, lines, installer), failure),
    ensures
        ({
            let exact = selected(groups, false);
            let patterns = selected(groups, true);
            let names = dump_names(
                lines_behind(lines, exact.len()),
                "__END_GROUP__"@,
                installer,
            );
            r.outcome is Ok <==> {
                &&& forall|i: int|
                    0 <= i < exact.len() ==> (#[trigger] exact[i]).1.exists == (printed(
                        lines,
                        i,
                        "absent"@,
                    ) == "present"@)
                &&& forall|i: int|
                    0 <= i < patterns.len() ==> (#[trigger] patterns[i]).1.exists == some_match(
                        patterns[i].0@,
                        names,
                    )
            }
        }),
{
    let exact = selected(groups, false);
    let patterns = selected(groups, true);
    assert(lines_behind(lines, exact.len()) =~= after_lines(lines, exact.len() as int));
    let names = dump_names(lines_behind(lines, exact.len()), "__END_GROUP__"@, installer);
    lemma_named_groups(exact, lines, exact.len());
    lemma_group_patterns(patterns, names, installer, patterns.len());
    lemma_failed_in_sum(
        named_groups_report(exact, lines, exact.len()),
        group_patterns_report(patterns, names, installer, patterns.len()),
    );
}

/// The lines behind the first `n`.
pub open spec fn lines_behind(lines: Seq<Seq<char>>, n: nat) -> Seq<Seq<char>> {
    if n <= lines.len() {
        lines.skip(n as int)
    } else {
        Seq::empty()
    }
}

/// The names in a dump are the first fields of its lines up to the one that ends it, but for the
/// installer's and empty ones.
pub proof fn dumps_give_their_names(
    lines: Seq<Seq<char>>,
    sentinel: Seq<char>,
    installer: Option<Seq<char>>,
    name: Seq<char>,
)
    ensures
        dump_names(lines, sentinel, installer).contains(name) <==> name.len() > 0 && installer
            != Some(name) && exists|j: int|
            0 <= j < lines.len() && before(#[trigger] lines[j], ':') == name && forall|k: int|
                0 <= k <= j ==> #[trigger] lines[k] != sentinel,
    decreases lines.len(),
{
    let found = dump_names(lines, sentinel, installer);
    if lines.len() == 0 {
    } else if lines[0] == sentinel {
        assert(found =~= seq![]);
    } else {
        let rest = lines.skip(1);
        dumps_give_their_names(rest, sentinel, installer, name);
        let first = dump_name(lines[0], installer);
        let others = dump_names(rest, sentinel, installer);
        lemma_among(first, others, name);
        if first.contains(name) {
            assert(first[0] == name);
            assert(before(lines[0], ':') == name);
        }
        if others.contains(name) {
            let j = choose|j: int|
                0 <= j < rest.len() && before(#[trigger] rest[j], ':') == name && forall|k: int|
                    0 <= k <= j ==> #[trigger] rest[k] != sentinel;
            assert(lines[j + 1] == rest[j]);
            assert forall|k: int| 0 <= k <= j + 1 implies #[trigger] lines[k] != sentinel by {
                if k > 0 {
                    assert(rest[k - 1] == lines[k]);
                }
            }
        }
        if name.len() > 0 && installer != Some(name) && exists|j: int|
            0 <= j < lines.len() && before(#[trigger] lines[j], ':') == name && forall|k: int|
                0 <= k <= j ==> #[trigger] lines[k] != sentinel {
            let j = choose|j: int|
                0 <= j < lines.len() && before(#[trigger] lines[j], ':') == name && forall|k: int|
                    0 <= k <= j ==> #[trigger] lines[k] != sentinel;
            if j == 0 {
                assert(first[0] == name);
            } else {
                assert(rest[j - 1] == lines[j]);
                assert forall|k: int| 0 <= k <= j - 1 implies #[trigger] rest[k] != sentinel by {
                    assert(rest[k] == lines[k + 1]);
                }
            }
        }
    }
}

proof fn lemma_among(a: Seq<Seq<char>>, b: Seq<Seq<char>>, x: Seq<char>)
    ensures
        (a + b).contains(x) == (a.contains(x) || b.contains(x)),
{
    let all = a + b;
    if a.contains(x) {
        let i = choose|i: int| 0 <= i < a.len() && a[i] == x;
        assert(all[i] == x);
    }
    if b.contains(x) {
        let i = choose|i: int| 0 <= i < b.len() && b[i] == x;
        assert(all[a.len() + i] == x);
    }
    if all.contains(x) {
        let i = choose|i: int| 0 <= i < all.len() && all[i] == x;
        if i < a.len() {
            assert(a[i] == x);
        } else {
            assert(b[i - a.len()] == x);
        }
    }
}

// ---------------------------------------------------------------------------
// Packages
// ---------------------------------------------------------------------------

proof fn lemma_named_packages(
    packages: Seq<(String, AssertPackage)>,
    lines: Seq<Seq<char>>,
    n: nat,
)
    requires
        n <= packages.len(),
    ensures
        any_failed(named_packages_report(packages, lines, n)) == !(forall|i: int|
            0 <= i < n ==> (#[trigger] packages[i]).1.installed == (printed(lines, i, "absent"@)
                == "present"@)),
    decreases n,
{
    if n > 0 {
        let i = n - 1;
        lemma_named_packages(packages, lines, i as nat);
        let line = printed(lines, i, "absent"@);
        let name = packages[i].0@;
        let ok = (line == "present"@) == packages[i].1.installed;
        let front = named_packages_report(packages, lines, i as nat);
        let part = package_lines(name, packages[i].1.installed, line);
        let status = seq![LineView::Status { label: "package "@ + name, ok }];
        lemma_status("package "@ + name, ok);
        let rest = part.skip(1);
        assert(part =~= status + rest);
        assert(!any_failed(rest));
        lemma_failed_in_sum(status, rest);
        lemma_failed_in_sum(front, part);
        assert(packages[i].1.installed == (line == "present"@) <==> ok);
    }
}

proof fn lemma_unwanted_packages(pattern: Seq<char>, found: Seq<Seq<char>>, n: nat)
    ensures
        any_failed(unwanted_packages(pattern, found, n)) == (n > 0),
    decreases n,
{
    if n > 0 {
        lemma_unwanted_packages(pattern, found, (n - 1) as nat);
        let label = "packages: expected no installed package matching \""@ + pattern
            + "\", but found \""@ + found[n - 1] + "\""@;
        let front = unwanted_packages(pattern, found, (n - 1) as nat);
        let status = seq![LineView::Status { label, ok: false }];
        lemma_status(label, false);
        lemma_failed_in_sum(front + seq![LineView::Detail { text: label }], status);
    }
}

proof fn lemma_package_pattern(pattern: Seq<char>, installed: bool, names: Seq<Seq<char>>)
    ensures
        any_failed(package_pattern_lines(pattern, installed, names)) == (some_match(
            pattern,
            names,
        ) != installed),
{
    lemma_some_match(pattern, names);
    let found = matching(pattern, names);
    let label = "packages: expected ≥1 installed matching \""@ + pattern + "\", found none"@;
    let status = seq![LineView::Status { label, ok: false }];
    lemma_status(label, false);
    lemma_failed_in_sum(seq![LineView::Detail { text: label }], status);
    lemma_unwanted_packages(pattern, found, found.len());
}

proof fn lemma_package_patterns(
    packages: Seq<(String, AssertPackage)>,
    names: Seq<Seq<char>>,
    n: nat,
)
    requires
        n <= packages.len(),
    ensures
        any_failed(package_patterns_report(packages, names, n)) == !(forall|i: int|
            0 <= i < n ==> (#[trigger] packages[i]).1.installed == some_match(
                packages[i].0@,
                names,
            )),
    decreases n,
{
    if n > 0 {
        let i = n - 1;
        lemma_package_patterns(packages, names, i as nat);
        let front = package_patterns_report(packages, names, i as nat);
        let part = package_pattern_lines(packages[i].0@, packages[i].1.installed, names);
        lemma_package_pattern(packages[i].0@, packages[i].1.installed, names);
        lemma_failed_in_sum(front, part);
        assert(package_patterns_report(packages, names, n) == front + part);
    }
}

/// The packages phase succeeds exactly if each named package is installed just if it must be,
/// and some installed package matches each pattern just if one must. The lines of the named
/// packages come first, and then all packages with their states.
pub proof fn packages_succeed_iff(
    r: AssertReport,
    packages: Seq<(String, AssertPackage)>,
    lines: Seq<Seq<char>>,
    failure: Seq<char>,
)
    requires
        shows(r, packages_report(packages, lines), failure),
    ensures
        ({
            let exact = selected(packages, false);
            let patterns = selected(packages, true);
            let names = dump_packages(lines_behind(lines, exact.len()));
            r.outcome is Ok <==> {
                &&& forall|i: int|
                    0 <= i < exact.len() ==> (#[trigger] exact[i]).1.installed == (printed(
                        lines,
                        i,
                        "absent"@,
                    ) == "present"@)
                &&& forall|i: int|
                    0 <= i < patterns.len() ==> (#[trigger] patterns[i]).1.installed
                        == some_match(patterns[i].0@, names)
            }
        }),
{
    let exact = selected(packages, false);
    let patterns = selected(packages, true);
    assert(lines_behind(lines, exact.len()) =~= after_lines(lines, exact.len() as int));
    let names = dump_packages(lines_behind(lines, exact.len()));
    lemma_named_packages(exact, lines, exact.len());
    lemma_package_patterns(patterns, names, patterns.len());
    lemma_failed_in_sum(
        named_packages_report(exact, lines, exact.len()),
        package_patterns_report(patterns, names, patterns.len()),
    );
}

/// A package is among those of a dump exactly if a line before the one that ends it gives the
/// package the state `install ok installed`.
pub proof fn dumps_give_installed_packages(lines: Seq<Seq<char>>, name: Seq<char>)
    requires
        name.len() > 0,
    ensures
        dump_packages(lines).contains(name) <==> exists|j: int|
            0 <= j < lines.len() && is_installed(#[trigger] lines[j], name) && forall|k: int|
                0 <= k <= j ==> #[trigger] lines[k] != "__END_DPKG__"@,
    decreases lines.len(),
{
    let sentinel = "__END_DPKG__"@;
    let found = dump_packages(lines);
    if lines.len() == 0 {
    } else if lines[0] == sentinel {
        assert(found =~= seq![]);
    } else {
        let rest = lines.skip(1);
        dumps_give_installed_packages(rest, name);
        let first = dump_package(lines[0]);
        let others = dump_packages(rest);
        lemma_among(first, others, name);
        if first.contains(name) {
            assert(first[0] == name);
            reveal_strlit("install ok installed");
            assert(is_installed(lines[0], name));
        }
        if others.contains(name) {
            let j = choose|j: int|
                0 <= j < rest.len() && is_installed(#[trigger] rest[j], name) && forall|k: int|
                    0 <= k <= j ==> #[trigger] rest[k] != sentinel;
            assert(lines[j + 1] == rest[j]);
            assert forall|k: int| 0 <= k <= j + 1 implies #[trigger] lines[k] != sentinel by {
                if k > 0 {
                    assert(rest[k - 1] == lines[k]);
                }
            }
        }
        if exists|j: int|
            0 <= j < lines.len() && is_installed(#[trigger] lines[j], name) && forall|k: int|
                0 <= k <= j ==> #[trigger] lines[k] != sentinel {
            let j = choose|j: int|
                0 <= j < lines.len() && is_installed(#[trigger] lines[j], name) && forall|k: int|
                    0 <= k <= j ==> #[trigger] lines[k] != sentinel;
            if j == 0 {
                assert(first[0] == name);
            } else {
                assert(rest[j - 1] == lines[j]);
                assert forall|k: int| 0 <= k <= j - 1 implies #[trigger] rest[k] != sentinel by {
                    assert(rest[k] == lines[k + 1]);
                }
            }
        }
    }
}

/// Whether a line of a dump tells that a package is installed.
pub open spec fn is_installed(line: Seq<char>, name: Seq<char>) -> bool {
    trim(before(line, ' ')) == name && (after(line, ' ') matches Some(state) && trim(state)
        == "install ok installed"@)
}

// ---------------------------------------------------------------------------
// Checks of plugins
// ---------------------------------------------------------------------------

proof fn lemma_plugin(checks: Seq<PluginCheck>, n: nat)
    requires
        n <= checks.len(),
    ensures
        any_failed(plugin_report(checks, n)) == !(forall|i: int|
            0 <= i < n ==> (#[trigger] checks[i]).ok),
    decreases n,
{
    if n > 0 {
        let i = n - 1;
        lemma_plugin(checks, i as nat);
        let front = plugin_report(checks, i as nat);
        let status = seq![LineView::Status { label: checks[i].label@, ok: checks[i].ok }];
        lemma_status(checks[i].label@, checks[i].ok);
        let whole = plugin_report(checks, n);
        let rest = whole.skip(front.len() as int + 1);
        assert(whole =~= front + status + rest);
        assert(!any_failed(rest));
        lemma_failed_in_sum(front, status);
        lemma_failed_in_sum(front + status, rest);
    }
}

/// The checks of a plugin succeed exactly if each of them does.
pub proof fn plugins_succeed_iff(r: AssertReport, checks: Seq<PluginCheck>, failure: Seq<char>)
    requires
        shows(r, plugin_report(checks, checks.len()), failure),
    ensures
        r.outcome is Ok <==> forall|i: int| 0 <= i < checks.len() ==> (#[trigger] checks[i]).ok,
{
    lemma_plugin(checks, checks.len());
}

// ---------------------------------------------------------------------------
// Users
// ---------------------------------------------------------------------------

/// Whether a user of whom the probe printed `line` is there, with the login shell that is
/// expected, just if the user must be there.
pub open spec fn user_as_expected(expected: AssertUser, line: Seq<char>) -> bool {
    if expected.exists {
        &&& line != "absent"@
        &&& "present:"@.is_prefix_of(line)
        &&& expected.shell matches Some(shell) ==> line == "present:"@ + shell@
    } else {
        line == "absent"@
    }
}

proof fn lemma_user_failures(name: Seq<char>, expected: AssertUser, line: Seq<char>)
    ensures
        user_failures(name, expected, line).len() == 0 <==> user_as_expected(expected, line),
{
    let head = "present:"@;
    if head.is_prefix_of(line) {
        let shell = line.skip(head.len() as int);
        assert(head + shell =~= line);
        if let Some(want) = expected.shell {
            assert((head + want@).skip(head.len() as int) =~= want@);
        }
    }
}

proof fn lemma_group_failures(
    name: Seq<char>,
    required: Seq<Seq<char>>,
    actual: Seq<Seq<char>>,
    n: nat,
)
    requires
        n <= required.len(),
    ensures
        group_failures(name, required, actual, n).len() == 0 <==> forall|j: int|
            0 <= j < n ==> actual.contains(#[trigger] required[j]),
    decreases n,
{
    if n > 0 {
        lemma_group_failures(name, required, actual, (n - 1) as nat);
        assert(actual.contains(required[n - 1]) || !actual.contains(required[n - 1]));
    }
}

/// Whether a user is in every group that is required.
pub open spec fn in_all_groups(required: Seq<Seq<char>>, actual: Seq<Seq<char>>) -> bool {
    forall|j: int| 0 <= j < required.len() ==> actual.contains(#[trigger] required[j])
}

proof fn lemma_user_lines(
    name: Seq<char>,
    expected: AssertUser,
    line: Seq<char>,
    groups_line: Seq<char>,
)
    ensures
        any_failed(user_lines(name, expected, line, groups_line)) == !(user_as_expected(
            expected,
            line,
        ) && (expected.exists ==> in_all_groups(texts(expected.groups@), words(groups_line)))),
{
    let failures = user_failures(name, expected, line);
    let required = texts(expected.groups@);
    let missing = group_failures(name, required, words(groups_line), expected.groups@.len());
    lemma_user_failures(name, expected, line);
    lemma_group_failures(name, required, words(groups_line), expected.groups@.len());
    let ok = failures.len() == 0;
    let status = seq![LineView::Status { label: "user "@ + name, ok }];
    let label = "user "@ + name + " groups"@;
    let bad = seq![LineView::Status { label, ok: false }];
    lemma_status("user "@ + name, ok);
    lemma_details(failures);
    lemma_details(missing);
    lemma_failed_in_sum(status, details(failures));
    lemma_status(label, false);
    lemma_status(label, true);
    lemma_failed_in_sum(bad, details(missing));
    let head = status + details(failures);
    let whole = user_lines(name, expected, line, groups_line);
    let rest = whole.skip(head.len() as int);
    assert(whole =~= head + rest);
    lemma_failed_in_sum(head, rest);
    if !wants_groups(expected) {
        assert(rest =~= seq![]);
        lemma_no_lines();
    } else if missing.len() > 0 {
        assert(rest =~= bad + details(missing));
    } else if ok {
        assert(rest =~= seq![LineView::Status { label, ok: true }]);
    } else {
        assert(rest =~= seq![]);
        lemma_no_lines();
    }
}

/// The line of the groups of the user at position `i`: behind the lines of all users, those of
/// the users come whose groups matter, in order.
pub open spec fn groups_line(users: Seq<(String, AssertUser)>, lines: Seq<Seq<char>>, i: int) -> Seq<
    char,
> {
    printed(lines, (users.len() + grouped_before(users, i as nat)) as int, ""@)
}

proof fn lemma_named_users(users: Seq<(String, AssertUser)>, lines: Seq<Seq<char>>, n: nat)
    requires
        n <= users.len(),
    ensures
        any_failed(named_users_report(users, lines, n)) == !(forall|i: int|
            0 <= i < n ==> user_as_expected(
                (#[trigger] users[i]).1,
                printed(lines, i, "absent"@),
            ) && (users[i].1.exists ==> in_all_groups(
                texts(users[i].1.groups@),
                words(groups_line(users, lines, i)),
            ))),
    decreases n,
{
    if n > 0 {
        let i = n - 1;
        lemma_named_users(users, lines, i as nat);
        let front = named_users_report(users, lines, i as nat);
        let line = printed(lines, i, "absent"@);
        let of_groups = groups_line(users, lines, i);
        let part = user_lines(users[i].0@, users[i].1, line, of_groups);
        lemma_user_lines(users[i].0@, users[i].1, line, of_groups);
        lemma_failed_in_sum(front, part);
        assert(named_users_report(users, lines, n) == front + part);
    }
}

proof fn lemma_user_patterns(
    users: Seq<(String, AssertUser)>,
    names: Seq<Seq<char>>,
    installer: Option<Seq<char>>,
    n: nat,
)
    requires
        n <= users.len(),
    ensures
        any_failed(user_patterns_report(users, names, installer, n)) == !(forall|i: int|
            0 <= i < n ==> (#[trigger] users[i]).1.exists == some_match(users[i].0@, names)),
    decreases n,
{
    if n > 0 {
        let i = n - 1;
        lemma_user_patterns(users, names, installer, i as nat);
        let front = user_patterns_report(users, names, installer, i as nat);
        let part = pattern_lines("user"@, users[i].0@, users[i].1.exists, names, installer);
        lemma_pattern("user"@, users[i].0@, users[i].1.exists, names, installer);
        lemma_failed_in_sum(front, part);
        assert(user_patterns_report(users, names, installer, n) == front + part);
    }
}

/// How many of the first `n` users have a line of groups: those that must be there and in some
/// group.
pub proof fn lines_of_groups_are_counted(users: Seq<(String, AssertUser)>, n: nat)
    requires
        0 < n <= users.len(),
    ensures
        grouped_before(users, 0) == 0,
        grouped_before(users, n) == grouped_before(users, (n - 1) as nat) + (if users[n
            - 1].1.exists && users[n - 1].1.groups@.len() > 0 {
            1nat
        } else {
            0nat
        }),
{
}

/// The users phase succeeds exactly if each named user is there just if the user must be, with
/// the expected login shell and in every expected group, and some user of the guest matches
/// each pattern just if one must.
pub proof fn users_succeed_iff(
    r: AssertReport,
    users: Seq<(String, AssertUser)>,
    lines: Seq<Seq<char>>,
    installer: Option<Seq<char>>,
    failure: Seq<char>,
)
    requires
        shows(r, users_report(users, lines, installer), failure),
    ensures
        ({
            let exact = selected(users, false);
            let patterns = selected(users, true);
            let read = exact.len() + grouped_before(exact, exact.len());
            let names = dump_names(lines_behind(lines, read), "__END_PASSWD__"@, installer);
            r.outcome is Ok <==> {
                &&& forall|i: int|
                    0 <= i < exact.len() ==> user_as_expected(
                        (#[trigger] exact[i]).1,
                        printed(lines, i, "absent"@),
                    ) && (exact[i].1.exists ==> in_all_groups(
                        texts(exact[i].1.groups@),
                        words(groups_line(exact, lines, i)),
                    ))
                &&& forall|i: int|
                    0 <= i < patterns.len() ==> (#[trigger] patterns[i]).1.exists == some_match(
                        patterns[i].0@,
                        names,
                    )
            }
        }),
{
    let exact = selected(users, false);
    let patterns = selected(users, true);
    let read = exact.len() + grouped_before(exact, exact.len());
    assert(lines_behind(lines, read) =~= after_lines(lines, read as int));
    let names = dump_names(lines_behind(lines, read), "__END_PASSWD__"@, installer);
    lemma_named_users(exact, lines, exact.len());
    lemma_user_patterns(patterns, names, installer, patterns.len());
    lemma_failed_in_sum(
        named_users_report(exact, lines, exact.len()),
        user_patterns_report(patterns, names, installer, patterns.len()),
    );
}

// ---------------------------------------------------------------------------
// Files
// ---------------------------------------------------------------------------

/// Whether an attribute is as expected, if something is expected of it.
pub open spec fn agrees(expected: Option<Seq<char>>, actual: Seq<char>) -> bool {
    expected matches Some(e) ==> e == actual
}

/// Whether a mode is the expected one: the same number, or the same text if one of them is no
/// number of up to four octal digits.
pub open spec fn mode_agrees(expected: Seq<char>, actual: Seq<char>) -> bool {
    if is_mode(expected) && is_mode(actual) {
        octal_value(expected) == octal_value(actual)
    } else {
        expected == actual
    }
}

proof fn lemma_octal_digits(a: Seq<char>, b: Seq<char>)
    requires
        a.len() == b.len(),
        forall|i: int| 0 <= i < a.len() ==> is_octal(#[trigger] a[i]),
        forall|i: int| 0 <= i < b.len() ==> is_octal(#[trigger] b[i]),
        octal_value(a) == octal_value(b),
    ensures
        a == b,
    decreases a.len(),
{
    if a.len() > 0 {
        let x = a.last() as int - '0' as int;
        let y = b.last() as int - '0' as int;
        assert(is_octal(a[a.len() - 1]) && is_octal(b[b.len() - 1]));
        assert(0 <= x < 8 && 0 <= y < 8);
        let p = octal_value(a.drop_last());
        let q = octal_value(b.drop_last());
        assert(p * 8 + x == q * 8 + y);
        assert(p == q && x == y);
        assert forall|i: int| 0 <= i < a.len() - 1 implies is_octal(
            #[trigger] a.drop_last()[i],
        ) by {
            assert(is_octal(a[i]));
        }
        assert forall|i: int| 0 <= i < b.len() - 1 implies is_octal(
            #[trigger] b.drop_last()[i],
        ) by {
            assert(is_octal(b[i]));
        }
        lemma_octal_digits(a.drop_last(), b.drop_last());
        assert(a =~= a.drop_last().push(a.last()));
        assert(b =~= b.drop_last().push(b.last()));
    } else {
        assert(a =~= b);
    }
}

/// Modes are the same exactly if they stand for the same number, however many leading zeros
/// they are written with.
pub proof fn modes_compare_as_numbers(expected: Seq<char>, actual: Seq<char>)
    ensures
        normal_mode(expected) == normal_mode(actual) <==> mode_agrees(expected, actual),
{
    if is_mode(expected) {
        normal_modes_have_four_digits(expected);
    }
    if is_mode(actual) {
        normal_modes_have_four_digits(actual);
    }
    if is_mode(expected) && is_mode(actual) {
        if octal_value(expected) == octal_value(actual) {
            lemma_octal_digits(normal_mode(expected), normal_mode(actual));
        }
    }
}

/// Whether a path of which the probe printed `line` is as expected: absent if it must be, and
/// else there, with the expected type, owner, group and mode.
pub open spec fn file_as_expected(expected: AssertFile, line: Seq<char>) -> bool {
    if expected.exists {
        &&& line != "absent"@
        &&& "present:"@.is_prefix_of(line)
        &&& facts(line.skip("present:"@.len() as int)) matches Some(f) && {
            &&& expected.filetype matches Some(t) ==> f.0 == t.word()
            &&& agrees(opt_text(expected.owner), f.1)
            &&& agrees(opt_text(expected.group), f.2)
            &&& expected.mode matches Some(m) ==> mode_agrees(m@, f.3)
        }
    } else {
        line == "absent"@
    }
}

proof fn lemma_file_failures(path: Seq<char>, expected: AssertFile, line: Seq<char>)
    ensures
        file_failures(path, expected, line).len() == 0 <==> file_as_expected(expected, line),
{
    if let Some(f) = facts(line.skip("present:"@.len() as int)) {
        if let Some(m) = expected.mode {
            modes_compare_as_numbers(m@, f.3);
        }
    }
}

proof fn lemma_files(files: Seq<(String, AssertFile)>, lines: Seq<Seq<char>>, n: nat)
    requires
        n <= files.len(),
    ensures
        any_failed(files_report(files, lines, n)) == !(forall|i: int|
            0 <= i < n ==> file_as_expected(
                (#[trigger] files[i]).1,
                printed(lines, i, "absent"@),
            )),
    decreases n,
{
    if n > 0 {
        let i = n - 1;
        lemma_files(files, lines, i as nat);
        let line = printed(lines, i, "absent"@);
        let failures = file_failures(files[i].0@, files[i].1, line);
        let front = files_report(files, lines, i as nat);
        let ok = failures.len() == 0;
        let status = seq![LineView::Status { label: files[i].0@, ok }];
        lemma_file_failures(files[i].0@, files[i].1, line);
        lemma_status(files[i].0@, ok);
        lemma_details(failures);
        lemma_failed_in_sum(front, status);
        lemma_failed_in_sum(front + status, details(failures));
        assert(files_report(files, lines, n) == front + status + details(failures));
    }
}

/// The files phase succeeds exactly if each path is as expected.
pub proof fn files_succeed_iff(
    r: AssertReport,
    files: Seq<(String, AssertFile)>,
    lines: Seq<Seq<char>>,
    failure: Seq<char>,
)
    requires
        shows(r, files_report(files, lines, files.len()), failure),
    ensures
        r.outcome is Ok <==> forall|i: int|
            0 <= i < files.len() ==> file_as_expected(
                (#[trigger] files[i]).1,
                printed(lines, i, "absent"@),
            ),
{
    lemma_files(files, lines, files.len());
}

/// What a probe prints of a path, `TYPE:OWNER:GROUP:MODE`, is read as these four.
pub proof fn file_lines_are_read(
    filetype: Seq<char>,
    owner: Seq<char>,
    group: Seq<char>,
    mode: Seq<char>,
)
    requires
        !filetype.contains(':'),
        !owner.contains(':'),
        !group.contains(':'),
    ensures
        facts(filetype + ":"@ + owner + ":"@ + group + ":"@ + mode) == Some(
            (filetype, owner, group, mode),
        ),
{
    reveal_strlit(":");
    let c = seq![':'];
    assert(":"@ =~= c);
    let s2 = group + c + mode;
    let s1 = owner + c + s2;
    let s = filetype + c + s1;
    lemma_split_at(group, ':', mode);
    lemma_split_at(owner, ':', s2);
    lemma_split_at(filetype, ':', s1);
    assert(s =~= filetype + ":"@ + owner + ":"@ + group + ":"@ + mode);
}

// ---------------------------------------------------------------------------
// What is shown of each check
// ---------------------------------------------------------------------------

proof fn lemma_shown_in_sum(a: Seq<LineView>, b: Seq<LineView>, line: LineView)
    ensures
        (a + b).contains(line) <==> a.contains(line) || b.contains(line),
{
    let all = a + b;
    if a.contains(line) {
        let k = choose|k: int| 0 <= k < a.len() && a[k] == line;
        assert(all[k] == line);
    }
    if b.contains(line) {
        let k = choose|k: int| 0 <= k < b.len() && b[k] == line;
        assert(all[a.len() + k] == line);
    }
    if all.contains(line) {
        let k = choose|k: int| 0 <= k < all.len() && all[k] == line;
        if k < a.len() {
            assert(a[k] == line);
        } else {
            assert(b[k - a.len()] == line);
        }
    }
}

/// What the report shows of a service names the service and the aspect: whether it is enabled,
/// and whether it is active, each as it was asked for.
pub proof fn services_are_shown(
    services: Seq<(String, AssertService)>,
    lines: Seq<Seq<char>>,
    n: nat,
    i: int,
)
    requires
        0 <= i < n <= services.len(),
    ensures
        ({
            let report = services_report(services, lines, n);
            let line = printed(lines, i, ":"@);
            let expected = services[i].1;
            &&& expected.enabled matches Some(want) ==> report.contains(
                LineView::Status {
                    label: "service "@ + services[i].0@ + " enabled"@,
                    ok: want == (enabled_state(line) == "enabled"@),
                },
            )
            &&& expected.active matches Some(want) ==> report.contains(
                LineView::Status {
                    label: "service "@ + services[i].0@ + " active"@,
                    ok: want == (active_state(line) == "active"@),
                },
            )
        }),
    decreases n,
{
    let k = n - 1;
    let front = services_report(services, lines, k as nat);
    let line = printed(lines, k, ":"@);
    let name = services[k].0@;
    let a = aspect_lines(name, "enabled"@, services[k].1.enabled, enabled_state(line));
    let b = aspect_lines(name, "active"@, services[k].1.active, active_state(line));
    assert(services_report(services, lines, n) == front + a + b);
    let on = printed(lines, i, ":"@);
    let enabled = LineView::Status {
        label: "service "@ + services[i].0@ + " enabled"@,
        ok: services[i].1.enabled == Some(enabled_state(on) == "enabled"@),
    };
    let active = LineView::Status {
        label: "service "@ + services[i].0@ + " active"@,
        ok: services[i].1.active == Some(active_state(on) == "active"@),
    };
    lemma_shown_in_sum(front, a, enabled);
    lemma_shown_in_sum(front + a, b, enabled);
    lemma_shown_in_sum(front, a, active);
    lemma_shown_in_sum(front + a, b, active);
    if i < k {
        services_are_shown(services, lines, k as nat, i);
    } else {
        assert("service "@ + name + " "@ + "enabled"@ =~= "service "@ + name + " enabled"@) by {
            reveal_strlit(" ");
            reveal_strlit("enabled");
            reveal_strlit(" enabled");
        }
        assert("service "@ + name + " "@ + "active"@ =~= "service "@ + name + " active"@) by {
            reveal_strlit(" ");
            reveal_strlit("active");
            reveal_strlit(" active");
        }
        if services[k].1.enabled is Some {
            assert(a[0] == enabled);
        }
        if services[k].1.active is Some {
            assert(b[0] == active);
        }
    }
}

/// What the report shows of a named package names it, and whether it is as it must be.
pub proof fn named_packages_are_shown(
    packages: Seq<(String, AssertPackage)>,
    lines: Seq<Seq<char>>,
    n: nat,
    i: int,
)
    requires
        0 <= i < n <= packages.len(),
    ensures
        named_packages_report(packages, lines, n).contains(
            LineView::Status {
                label: "package "@ + packages[i].0@,
                ok: packages[i].1.installed == (printed(lines, i, "absent"@) == "present"@),
            },
        ),
    decreases n,
{
    let k = n - 1;
    let front = named_packages_report(packages, lines, k as nat);
    let line = printed(lines, k, "absent"@);
    let part = package_lines(packages[k].0@, packages[k].1.installed, line);
    assert(named_packages_report(packages, lines, n) == front + part);
    let shown = LineView::Status {
        label: "package "@ + packages[i].0@,
        ok: packages[i].1.installed == (printed(lines, i, "absent"@) == "present"@),
    };
    lemma_shown_in_sum(front, part, shown);
    if i < k {
        named_packages_are_shown(packages, lines, k as nat, i);
    } else {
        assert(part[0] == shown);
    }
}

/// What the report shows of a named group names it, and whether it is as it must be.
pub proof fn named_groups_are_shown(
    groups: Seq<(String, AssertGroup)>,
    lines: Seq<Seq<char>>,
    n: nat,
    i: int,
)
    requires
        0 <= i < n <= groups.len(),
    ensures
        named_groups_report(groups, lines, n).contains(
            LineView::Status {
                label: "group "@ + groups[i].0@,
                ok: groups[i].1.exists == (printed(lines, i, "absent"@) == "present"@),
            },
        ),
    decreases n,
{
    let k = n - 1;
    let front = named_groups_report(groups, lines, k as nat);
    let line = printed(lines, k, "absent"@);
    let part = group_lines(groups[k].0@, groups[k].1.exists, line);
    assert(named_groups_report(groups, lines, n) == front + part);
    let shown = LineView::Status {
        label: "group "@ + groups[i].0@,
        ok: groups[i].1.exists == (printed(lines, i, "absent"@) == "present"@),
    };
    lemma_shown_in_sum(front, part, shown);
    if i < k {
        named_groups_are_shown(groups, lines, k as nat, i);
    } else {
        assert(part[0] == shown);
    }
}

/// What the report shows of a named user names the user, and whether the user is as expected.
pub proof fn named_users_are_shown(
    users: Seq<(String, AssertUser)>,
    lines: Seq<Seq<char>>,
    n: nat,
    i: int,
)
    requires
        0 <= i < n <= users.len(),
    ensures
        named_users_report(users, lines, n).contains(
            LineView::Status {
                label: "user "@ + users[i].0@,
                ok: user_as_expected(users[i].1, printed(lines, i, "absent"@)),
            },
        ),
    decreases n,
{
    let k = n - 1;
    let front = named_users_report(users, lines, k as nat);
    let line = printed(lines, k, "absent"@);
    let part = user_lines(users[k].0@, users[k].1, line, groups_line(users, lines, k));
    assert(named_users_report(users, lines, n) == front + part);
    let shown = LineView::Status {
        label: "user "@ + users[i].0@,
        ok: user_as_expected(users[i].1, printed(lines, i, "absent"@)),
    };
    lemma_shown_in_sum(front, part, shown);
    if i < k {
        named_users_are_shown(users, lines, k as nat, i);
    } else {
        lemma_user_failures(users[k].0@, users[k].1, line);
        assert(part[0] == shown);
    }
}

/// What the report shows of a path names it, and whether it is as expected.
pub proof fn files_are_shown(
    files: Seq<(String, AssertFile)>,
    lines: Seq<Seq<char>>,
    n: nat,
    i: int,
)
    requires
        0 <= i < n <= files.len(),
    ensures
        files_report(files, lines, n).contains(
            LineView::Status {
                label: files[i].0@,
                ok: file_as_expected(files[i].1, printed(lines, i, "absent"@)),
            },
        ),
    decreases n,
{
    let k = n - 1;
    let front = files_report(files, lines, k as nat);
    let line = printed(lines, k, "absent"@);
    let failures = file_failures(files[k].0@, files[k].1, line);
    let status = LineView::Status { label: files[k].0@, ok: failures.len() == 0 };
    let part = seq![status] + details(failures);
    assert(front + seq![status] + details(failures) =~= front + part);
    assert(files_report(files, lines, n) == front + part);
    let shown = LineView::Status {
        label: files[i].0@,
        ok: file_as_expected(files[i].1, printed(lines, i, "absent"@)),
    };
    lemma_shown_in_sum(front, part, shown);
    if i < k {
        files_are_shown(files, lines, k as nat, i);
    } else {
        lemma_file_failures(files[k].0@, files[k].1, line);
        assert(part[0] == shown);
    }
}

/// What the report shows of a check of a plugin is what the plugin said of it, with its message
/// behind it if it did not hold.
pub proof fn plugin_checks_are_shown(checks: Seq<PluginCheck>, n: nat, i: int)
    requires
        0 <= i < n <= checks.len(),
    ensures
        ({
            let report = plugin_report(checks, n);
            &&& report.contains(LineView::Status { label: checks[i].label@, ok: checks[i].ok })
            &&& !checks[i].ok ==> (checks[i].message matches Some(message) ==> report.contains(
                LineView::Detail { text: message@ },
            ))
        }),
    decreases n,
{
    let k = n - 1;
    let front = plugin_report(checks, k as nat);
    let check = checks[k];
    let status = seq![LineView::Status { label: check.label@, ok: check.ok }];
    let said = match check.message {
        Some(message) if !check.ok => seq![LineView::Detail { text: message@ }],
        _ => Seq::<LineView>::empty(),
    };
    assert(plugin_report(checks, n) == front + status + said);
    let shown = LineView::Status { label: checks[i].label@, ok: checks[i].ok };
    lemma_shown_in_sum(front, status, shown);
    lemma_shown_in_sum(front + status, said, shown);
    if let Some(message) = checks[i].message {
        let detail = LineView::Detail { text: message@ };
        lemma_shown_in_sum(front, status, detail);
        lemma_shown_in_sum(front + status, said, detail);
        if i == k && !check.ok {
            assert(said[0] == detail);
        }
    }
    if i < k {
        plugin_checks_are_shown(checks, k as nat, i);
    } else {
        assert(status[0] == shown);
    }
}

} // verus!
