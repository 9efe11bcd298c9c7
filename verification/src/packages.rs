//! The `assert.packages:` and `assert.services:` phases.

use vstd::prelude::*;
use vstd::string::*;

use crate::accounts::behind;
use crate::checks::{
    AssertReport, LineView, ReportLine, breaks_off, conclude, push_detail, push_status,
    report_lines, shows,
};
use crate::document::{AssertBlock, AssertPackage, AssertService};
use crate::error::PlanError;
use crate::globbing::{matching, matching_names};
use crate::probe::{LineCursor, after_lines, line_or, select, selected};
use crate::strings::{cat2, cat3, cat4, cat5, cat6, same, text_after, text_before, trimmed};
use crate::text::{after, before, lines, texts, trim};

verus! {

// ---------------------------------------------------------------------------
// Packages
// ---------------------------------------------------------------------------

/// The installed package that a line `name status` of a dump gives.
pub open spec fn dump_package(line: Seq<char>) -> Seq<Seq<char>> {
    let name = trim(before(line, ' '));
    let status = match after(line, ' ') {
        Some(rest) => trim(rest),
        None => seq![],
    };
    if name.len() > 0 && status == "install ok installed"@ {
        seq![name]
    } else {
        seq![]
    }
}

/// The installed packages in the lines of a dump up to the line that ends it.
pub open spec fn dump_packages(lines: Seq<Seq<char>>) -> Seq<Seq<char>>
    decreases lines.len(),
{
    if lines.len() == 0 || lines[0] == "__END_DPKG__"@ {
        seq![]
    } else {
        dump_package(lines[0]) + dump_packages(lines.skip(1))
    }
}

/// Reads a dump of packages with their states up to the line that ends it: the
/// names of those whose state is `install ok installed`.
pub fn parse_dpkg_installed(lines: &mut LineCursor) -> (r: Vec<String>)
    ensures
        texts(r@) == dump_packages(old(lines).rest()),
        final(lines).rest() == behind(old(lines).rest(), "__END_DPKG__"@),
{
    let ghost all = lines.rest();
    let ghost sentinel = "__END_DPKG__"@;
    let mut installed: Vec<String> = Vec::new();
    assert(texts(installed@) + dump_packages(all) =~= dump_packages(all));
    loop
        invariant
            all == old(lines).rest(),
            sentinel == "__END_DPKG__"@,
            texts(installed@) + dump_packages(lines.rest()) == dump_packages(all),
            behind(lines.rest(), sentinel) == behind(all, sentinel),
        decreases lines.rest().len(),
    {
        let ghost rest = lines.rest();
        let ghost had = texts(installed@);
        match lines.next() {
            None => {
                assert(had + dump_packages(rest) =~= had);
                assert(rest =~= seq![]);
                return installed;
            },
            Some(line) => {
                if same(line.as_str(), "__END_DPKG__") {
                    assert(had + dump_packages(rest) =~= had);
                    return installed;
                }
                let field = text_before(line.as_str(), ' ');
                let name = trimmed(field.as_str());
                let status = match text_after(line.as_str(), ' ') {
                    Some(rest) => trimmed(rest.as_str()),
                    None => String::new(),
                };
                if !name.as_str().is_empty() && same(status.as_str(), "install ok installed") {
                    installed.push(name);
                    assert(texts(installed@) =~= had + dump_package(rest[0]));
                } else {
                    assert(had =~= had + dump_package(rest[0]));
                }
                assert(texts(installed@) + dump_packages(rest.skip(1)) =~= had + (dump_package(
                    rest[0],
                ) + dump_packages(rest.skip(1))));
            },
        }
    }
}

/// What the report shows of a package, given the line of its probe.
pub open spec fn package_lines(name: Seq<char>, installed: bool, line: Seq<char>) -> Seq<
    LineView,
> {
    let ok = (line == "present"@) == installed;
    seq![LineView::Status { label: "package "@ + name, ok }] + if ok {
        seq![]
    } else if installed {
        seq![
            LineView::Detail {
                text: "package "@ + name + ": expected installed, but not installed"@,
            },
        ]
    } else {
        seq![
            LineView::Detail { text: "package "@ + name + ": expected NOT installed, but present"@ },
        ]
    }
}

/// What the report shows of the first `n` named packages.
pub open spec fn named_packages_report(
    packages: Seq<(String, AssertPackage)>,
    lines: Seq<Seq<char>>,
    n: nat,
) -> Seq<LineView>
    decreases n,
{
    if n == 0 {
        seq![]
    } else {
        let i = n - 1;
        named_packages_report(packages, lines, i as nat) + package_lines(
            packages[i].0@,
            packages[i].1.installed,
            line_or(lines, i, "absent"@),
        )
    }
}

/// What the report shows of the first `n` installed packages that match a pattern
/// and must not.
pub open spec fn unwanted_packages(
    pattern: Seq<char>,
    found: Seq<Seq<char>>,
    n: nat,
) -> Seq<LineView>
    decreases n,
{
    if n == 0 {
        seq![]
    } else {
        let label = "packages: expected no installed package matching \""@ + pattern
            + "\", but found \""@ + found[n - 1] + "\""@;
        unwanted_packages(pattern, found, (n - 1) as nat) + seq![LineView::Detail { text: label }]
            + seq![LineView::Status { label, ok: false }]
    }
}

/// What the report shows of a pattern: with `installed` some installed package must
/// match it, without it none may.
pub open spec fn package_pattern_lines(
    pattern: Seq<char>,
    installed: bool,
    names: Seq<Seq<char>>,
) -> Seq<LineView> {
    let found = matching(pattern, names);
    if installed {
        if found.len() == 0 {
            let label = "packages: expected ≥1 installed matching \""@ + pattern
                + "\", found none"@;
            seq![LineView::Detail { text: label }] + seq![LineView::Status { label, ok: false }]
        } else {
            seq![
                LineView::Status {
                    label: "packages: at least one installed matching \""@ + pattern + "\""@,
                    ok: true,
                },
            ]
        }
    } else if found.len() == 0 {
        seq![
            LineView::Status {
                label: "packages: expected no installed package matching \""@ + pattern + "\""@,
                ok: true,
            },
        ]
    } else {
        unwanted_packages(pattern, found, found.len())
    }
}

fn push_package_pattern(
    report: &mut Vec<ReportLine>,
    pattern: &str,
    installed: bool,
    names: &Vec<String>,
)
    ensures
        report_lines(final(report)@) == report_lines(old(report)@) + package_pattern_lines(
            pattern@,
            installed,
            texts(names@),
        ),
{
    let ghost had = report_lines(report@);
    let found = matching_names(pattern, names);
    let ghost fs = texts(found@);
    assert(fs.len() == found@.len());
    if installed {
        if found.len() == 0 {
            let label = cat3(
                "packages: expected ≥1 installed matching \"",
                pattern,
                "\", found none",
            );
            push_detail(report, label.as_str());
            push_status(report, label, false);
            assert(report_lines(report@) =~= had + package_pattern_lines(
                pattern@,
                installed,
                texts(names@),
            ));
        } else {
            push_status(
                report,
                cat3("packages: at least one installed matching \"", pattern, "\""),
                true,
            );
        }
    } else if found.len() == 0 {
        push_status(
            report,
            cat3("packages: expected no installed package matching \"", pattern, "\""),
            true,
        );
    } else {
        let mut i: usize = 0;
        assert(had + unwanted_packages(pattern@, fs, 0) =~= had);
        while i < found.len()
            invariant
                i <= found@.len(),
                fs == texts(found@),
                report_lines(report@) == had + unwanted_packages(pattern@, fs, i as nat),
            decreases found@.len() - i,
        {
            let ghost so_far = unwanted_packages(pattern@, fs, i as nat);
            let label = cat5(
                "packages: expected no installed package matching \"",
                pattern,
                "\", but found \"",
                found[i].as_str(),
                "\"",
            );
            let ghost view = label@;
            push_detail(report, label.as_str());
            push_status(report, label, false);
            assert(report_lines(report@) =~= had + (so_far + seq![
                LineView::Detail { text: view },
            ] + seq![LineView::Status { label: view, ok: false }]));
            i += 1;
        }
    }
}

/// What the report shows of the first `n` patterns of packages.
pub open spec fn package_patterns_report(
    packages: Seq<(String, AssertPackage)>,
    names: Seq<Seq<char>>,
    n: nat,
) -> Seq<LineView>
    decreases n,
{
    if n == 0 {
        seq![]
    } else {
        let i = n - 1;
        package_patterns_report(packages, names, i as nat) + package_pattern_lines(
            packages[i].0@,
            packages[i].1.installed,
            names,
        )
    }
}

/// What the report of a package probe shows.
pub open spec fn packages_report(
    packages: Seq<(String, AssertPackage)>,
    lines: Seq<Seq<char>>,
) -> Seq<LineView> {
    let exact = selected(packages, false);
    let patterns = selected(packages, true);
    named_packages_report(exact, lines, exact.len()) + package_patterns_report(
        patterns,
        dump_packages(after_lines(lines, exact.len() as int)),
        patterns.len(),
    )
}

/// Holds what a package probe printed against what is expected of the packages.
pub fn evaluate_packages(packages: &Vec<(String, AssertPackage)>, probe_output: &str) -> (r:
    AssertReport)
    ensures
        shows(
            r,
            packages_report(packages@, lines(probe_output@)),
            "one or more assert.packages: checks failed"@,
        ),
{
    let ghost ls = lines(probe_output@);
    let exact = select(packages, false);
    let patterns = select(packages, true);
    let ghost ex = exact@.unref();
    let ghost pats = patterns@.unref();
    let mut cursor = LineCursor::new(probe_output);
    let mut report: Vec<ReportLine> = Vec::new();
    assert(report_lines(report@) =~= seq![]);
    assert(after_lines(ls, 0) =~= ls);
    let mut k: usize = 0;
    while k < exact.len()
        invariant
            k <= exact@.len(),
            ex == exact@.unref(),
            ls == lines(probe_output@),
            cursor.rest() == after_lines(ls, k as int),
            report_lines(report@) == named_packages_report(ex, ls, k as nat),
        decreases exact@.len() - k,
    {
        let ghost had = report_lines(report@);
        assert(ex[k as int] == *exact@[k as int]);
        let line = cursor.next_or("absent");
        assert(line@ == line_or(ls, k as int, "absent"@));
        assert(cursor.rest() =~= after_lines(ls, k + 1));
        let name = exact[k].0.as_str();
        let installed = exact[k].1.installed;
        let ok = same(line.as_str(), "present") == installed;
        push_status(&mut report, cat2("package ", name), ok);
        if !ok {
            let text = if installed {
                cat3("package ", name, ": expected installed, but not installed")
            } else {
                cat3("package ", name, ": expected NOT installed, but present")
            };
            push_detail(&mut report, text.as_str());
        }
        assert(report_lines(report@) =~= had + package_lines(name@, installed, line@));
        k += 1;
    }
    let ghost named = report_lines(report@);
    if patterns.len() > 0 {
        let names = parse_dpkg_installed(&mut cursor);
        let ghost all = texts(names@);
        let mut p: usize = 0;
        assert(named + package_patterns_report(pats, all, 0) =~= named);
        while p < patterns.len()
            invariant
                p <= patterns@.len(),
                pats == patterns@.unref(),
                all == texts(names@),
                report_lines(report@) == named + package_patterns_report(pats, all, p as nat),
            decreases patterns@.len() - p,
        {
            let ghost so_far = package_patterns_report(pats, all, p as nat);
            assert(pats[p as int] == *patterns@[p as int]);
            push_package_pattern(
                &mut report,
                patterns[p].0.as_str(),
                patterns[p].1.installed,
                &names,
            );
            assert(report_lines(report@) =~= named + (so_far + package_pattern_lines(
                pats[p as int].0@,
                pats[p as int].1.installed,
                all,
            )));
            p += 1;
        }
    } else {
        assert(named =~= packages_report(packages@, ls));
    }
    conclude(report, "one or more assert.packages: checks failed")
}

/// Runs the `assert.packages:` phase on what its probe gave.
pub fn run_assert_packages(assert_block: &AssertBlock, probe: &Result<String, PlanError>) -> (r:
    AssertReport)
    ensures
        assert_block.packages@.len() == 0 ==> r.outcome is Ok && r.lines@.len() == 0,
        assert_block.packages@.len() > 0 && probe is Err ==> r.outcome is Err,
        assert_block.packages@.len() == 0 ==> shows(r, seq![], ""@),
        assert_block.packages@.len() > 0 ==> match probe {
            Ok(output) => shows(
                r,
                packages_report(assert_block.packages@, lines(output@)),
                "one or more assert.packages: checks failed"@,
            ),
            Err(e) => breaks_off(r, "assert.packages: SSH probe failed: "@ + e@),
        },
{
    if assert_block.packages.len() == 0 {
        let lines: Vec<ReportLine> = Vec::new();
        assert(report_lines(lines@) =~= seq![]);
        return conclude(lines, "");
    }
    match probe {
        Ok(output) => evaluate_packages(&assert_block.packages, output.as_str()),
        Err(e) => AssertReport {
            lines: Vec::new(),
            outcome: Err(
                PlanError::new(cat2("assert.packages: SSH probe failed: ", e.message.as_str())),
            ),
        },
    }
}

// ---------------------------------------------------------------------------
// Services
// ---------------------------------------------------------------------------

/// The word for a truth value.
pub open spec fn bool_word(b: bool) -> Seq<char> {
    if b {
        "true"@
    } else {
        "false"@
    }
}

/// The word for a truth value.
pub(crate) fn bool_text(b: bool) -> (r: &'static str)
    ensures
        r@ == bool_word(b),
{
    if b {
        "true"
    } else {
        "false"
    }
}

/// What the report shows of one aspect of a service: whether the state that
/// `systemctl` printed is the word `aspect` exactly if it must be.
pub open spec fn aspect_lines(
    name: Seq<char>,
    aspect: Seq<char>,
    expected: Option<bool>,
    state: Seq<char>,
) -> Seq<LineView> {
    match expected {
        None => seq![],
        Some(want) => {
            let ok = (state == aspect) == want;
            seq![LineView::Status { label: "service "@ + name + " "@ + aspect, ok }] + if ok {
                seq![]
            } else {
                seq![
                    LineView::Detail {
                        text: "service "@ + name + ": expected "@ + aspect + "="@ + bool_word(want)
                            + ", but systemctl is-"@ + aspect + " returned '"@ + state + "'"@,
                    },
                ]
            }
        },
    }
}

fn push_aspect(
    report: &mut Vec<ReportLine>,
    name: &str,
    aspect: &str,
    expected: Option<bool>,
    state: &str,
)
    ensures
        report_lines(final(report)@) == report_lines(old(report)@) + aspect_lines(
            name@,
            aspect@,
            expected,
            state@,
        ),
{
    let ghost had = report_lines(report@);
    if let Some(want) = expected {
        let ok = same(state, aspect) == want;
        push_status(report, cat4("service ", name, " ", aspect), ok);
        if !ok {
            let head = cat6("service ", name, ": expected ", aspect, "=", bool_text(want));
            let text = cat6(
                head.as_str(),
                ", but systemctl is-",
                aspect,
                " returned '",
                state,
                "'",
            );
            push_detail(report, text.as_str());
        }
    }
    assert(report_lines(report@) =~= had + aspect_lines(name@, aspect@, expected, state@));
}

/// The enabled state that the line of a service probe gives.
pub open spec fn enabled_state(line: Seq<char>) -> Seq<char> {
    trim(before(line, ':'))
}

/// The active state that the line of a service probe gives.
pub open spec fn active_state(line: Seq<char>) -> Seq<char> {
    match after(line, ':') {
        Some(rest) => trim(rest),
        None => seq![],
    }
}

/// What the report shows of the first `n` services.
pub open spec fn services_report(
    services: Seq<(String, AssertService)>,
    lines: Seq<Seq<char>>,
    n: nat,
) -> Seq<LineView>
    decreases n,
{
    if n == 0 {
        seq![]
    } else {
        let i = n - 1;
        let line = line_or(lines, i, ":"@);
        services_report(services, lines, i as nat) + aspect_lines(
            services[i].0@,
            "enabled"@,
            services[i].1.enabled,
            enabled_state(line),
        ) + aspect_lines(
            services[i].0@,
            "active"@,
            services[i].1.active,
            active_state(line),
        )
    }
}

/// Holds what a service probe printed against what is expected of the services.
pub fn evaluate_services(services: &Vec<(String, AssertService)>, probe_output: &str) -> (r:
    AssertReport)
    ensures
        shows(
            r,
            services_report(services@, lines(probe_output@), services@.len()),
            "one or more assert.services: checks failed"@,
        ),
{
    let ghost ls = lines(probe_output@);
    let mut cursor = LineCursor::new(probe_output);
    let mut report: Vec<ReportLine> = Vec::new();
    assert(report_lines(report@) =~= seq![]);
    assert(after_lines(ls, 0) =~= ls);
    let mut i: usize = 0;
    while i < services.len()
        invariant
            i <= services@.len(),
            ls == lines(probe_output@),
            cursor.rest() == after_lines(ls, i as int),
            report_lines(report@) == services_report(services@, ls, i as nat),
        decreases services@.len() - i,
    {
        let line = cursor.next_or(":");
        assert(line@ == line_or(ls, i as int, ":"@));
        assert(cursor.rest() =~= after_lines(ls, i + 1));
        let field = text_before(line.as_str(), ':');
        let enabled = trimmed(field.as_str());
        let active = match text_after(line.as_str(), ':') {
            Some(rest) => trimmed(rest.as_str()),
            None => String::new(),
        };
        assert(active@ =~= active_state(line@));
        let name = services[i].0.as_str();
        push_aspect(&mut report, name, "enabled", services[i].1.enabled, enabled.as_str());
        push_aspect(&mut report, name, "active", services[i].1.active, active.as_str());
        i += 1;
    }
    conclude(report, "one or more assert.services: checks failed")
}

/// Runs the `assert.services:` phase on what its probe gave.
pub fn run_assert_services(assert_block: &AssertBlock, probe: &Result<String, PlanError>) -> (r:
    AssertReport)
    ensures
        assert_block.services@.len() == 0 ==> r.outcome is Ok && r.lines@.len() == 0,
        assert_block.services@.len() > 0 && probe is Err ==> r.outcome is Err,
        assert_block.services@.len() == 0 ==> shows(r, seq![], ""@),
        assert_block.services@.len() > 0 ==> match probe {
            Ok(output) => shows(
                r,
                services_report(
                    assert_block.services@,
                    lines(output@),
                    assert_block.services@.len(),
                ),
                "one or more assert.services: checks failed"@,
            ),
            Err(e) => breaks_off(r, "assert.services: SSH probe failed: "@ + e@),
        },
{
    if assert_block.services.len() == 0 {
        let lines: Vec<ReportLine> = Vec::new();
        assert(report_lines(lines@) =~= seq![]);
        return conclude(lines, "");
    }
    match probe {
        Ok(output) => evaluate_services(&assert_block.services, output.as_str()),
        Err(e) => AssertReport {
            lines: Vec::new(),
            outcome: Err(
                PlanError::new(cat2("assert.services: SSH probe failed: ", e.message.as_str())),
            ),
        },
    }
}

// ---------------------------------------------------------------------------
// Checks of plugins
// ---------------------------------------------------------------------------

/// A check that a plugin made.
#[derive(Debug)]
pub struct PluginCheck {
    pub label: String,
    pub ok: bool,
    pub message: Option<String>,
}

/// What the report shows of the first `n` checks of a plugin.
pub open spec fn plugin_report(checks: Seq<PluginCheck>, n: nat) -> Seq<LineView>
    decreases n,
{
    if n == 0 {
        seq![]
    } else {
        let check = checks[n - 1];
        plugin_report(checks, (n - 1) as nat) + seq![
            LineView::Status { label: check.label@, ok: check.ok },
        ] + match check.message {
            Some(message) if !check.ok => seq![LineView::Detail { text: message@ }],
            _ => seq![],
        }
    }
}

/// Reports the checks that a plugin made for the assertion `verb`. `results` is what the
/// plugin's reply read as.
pub fn run_plugin_assert_checks(
    verb: &str,
    results: &Result<Vec<PluginCheck>, PlanError>,
) -> (r: AssertReport)
    ensures
        match results {
            Ok(checks) => shows(
                r,
                plugin_report(checks@, checks@.len()),
                "one or more assert."@ + verb@ + " checks failed"@,
            ),
            Err(e) => breaks_off(r, "assert."@ + verb@ + ": invalid results JSON: "@ + e@),
        },
{
    let checks = match results {
        Ok(checks) => checks,
        Err(e) => {
            let text = cat4("assert.", verb, ": invalid results JSON: ", e.message.as_str());
            return AssertReport { lines: Vec::new(), outcome: Err(PlanError::new(text)) };
        },
    };
    let mut report: Vec<ReportLine> = Vec::new();
    assert(report_lines(report@) =~= seq![]);
    let mut i: usize = 0;
    while i < checks.len()
        invariant
            i <= checks@.len(),
            report_lines(report@) == plugin_report(checks@, i as nat),
        decreases checks@.len() - i,
    {
        let ghost had = report_lines(report@);
        push_status(&mut report, checks[i].label.clone(), checks[i].ok);
        if !checks[i].ok {
            if let Some(message) = &checks[i].message {
                push_detail(&mut report, message.as_str());
            }
        }
        assert(report_lines(report@) =~= plugin_report(checks@, (i + 1) as nat));
        i += 1;
    }
    let failure = cat3("one or more assert.", verb, " checks failed");
    conclude(report, failure.as_str())
}

} // verus!
