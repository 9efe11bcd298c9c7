//! The `assert:` phase: what a probe printed, held against what is expected.

use vstd::prelude::*;
use vstd::string::*;

use crate::document::{AssertBlock, AssertFile};
use crate::error::{PlanError, outcome};
use crate::probe::{LineCursor, after_lines, line_or};
use crate::strings::{cat2, cat3, cat4, cat5, position, same, slice, to_chars, without_prefix};
use crate::text::{find_char, lines, opt_text, starts_with, texts};
use crate::validate::is_octal;

verus! {

// ---------------------------------------------------------------------------
// Reports
// ---------------------------------------------------------------------------

/// A line of a report.
#[derive(Debug)]
pub enum ReportLine {
    /// A check that was made, and whether it held.
    Status { label: String, ok: bool },
    /// Why a check did not hold.
    Detail { text: String },
}

/// The model of a [`ReportLine`].
pub enum LineView {
    Status { label: Seq<char>, ok: bool },
    Detail { text: Seq<char> },
}

impl View for ReportLine {
    type V = LineView;

    open spec fn view(&self) -> LineView {
        match self {
            ReportLine::Status { label, ok } => LineView::Status { label: label@, ok: *ok },
            ReportLine::Detail { text } => LineView::Detail { text: text@ },
        }
    }
}

/// The contents of a list of report lines.
pub open spec fn report_lines(v: Seq<ReportLine>) -> Seq<LineView> {
    v.map_values(|l: ReportLine| l@)
}

/// What a phase shows and how it ends.
#[derive(Debug)]
pub struct AssertReport {
    pub lines: Vec<ReportLine>,
    pub outcome: Result<(), PlanError>,
}

/// Whether a line tells of a check that did not hold.
pub open spec fn is_failure(line: LineView) -> bool {
    line matches LineView::Status { label, ok } && !ok
}

/// Whether some check did not hold.
pub open spec fn any_failed(lines: Seq<LineView>) -> bool {
    exists|i: int| 0 <= i < lines.len() && is_failure(#[trigger] lines[i])
}

/// A report that shows `lines` and fails with `failure` exactly if some check
/// among them did not hold.
pub open spec fn shows(r: AssertReport, lines: Seq<LineView>, failure: Seq<char>) -> bool {
    &&& report_lines(r.lines@) == lines
    &&& outcome(
        r.outcome,
        if any_failed(lines) {
            Some(failure)
        } else {
            None
        },
    )
}

/// A report that shows nothing and fails with `failure`.
pub open spec fn breaks_off(r: AssertReport, failure: Seq<char>) -> bool {
    r.lines@.len() == 0 && outcome(r.outcome, Some(failure))
}

/// The details of a list of failures.
pub open spec fn details(failures: Seq<Seq<char>>) -> Seq<LineView> {
    failures.map_values(|t: Seq<char>| LineView::Detail { text: t })
}

pub(crate) fn push_status(lines: &mut Vec<ReportLine>, label: String, ok: bool)
    ensures
        report_lines(final(lines)@) == report_lines(old(lines)@) + seq![
            LineView::Status { label: label@, ok },
        ],
{
    let ghost had = report_lines(lines@);
    let ghost view = label@;
    lines.push(ReportLine::Status { label, ok });
    assert(report_lines(lines@) =~= had + seq![LineView::Status { label: view, ok }]);
}

pub(crate) fn push_detail(lines: &mut Vec<ReportLine>, text: &str)
    ensures
        report_lines(final(lines)@) == report_lines(old(lines)@) + seq![
            LineView::Detail { text: text@ },
        ],
{
    let ghost had = report_lines(lines@);
    lines.push(ReportLine::Detail { text: text.to_owned() });
    assert(report_lines(lines@) =~= had + seq![LineView::Detail { text: text@ }]);
}

pub(crate) fn push_details(lines: &mut Vec<ReportLine>, failures: &Vec<String>)
    ensures
        report_lines(final(lines)@) == report_lines(old(lines)@) + details(texts(failures@)),
{
    let ghost had = report_lines(lines@);
    let ghost all = texts(failures@);
    let mut i: usize = 0;
    assert(had + details(all.take(0)) =~= had);
    while i < failures.len()
        invariant
            i <= failures@.len(),
            all == texts(failures@),
            report_lines(lines@) == had + details(all.take(i as int)),
        decreases failures@.len() - i,
    {
        push_detail(lines, failures[i].as_str());
        assert(report_lines(lines@) =~= had + details(all.take(i + 1)));
        i += 1;
    }
    assert(all.take(i as int) =~= all);
}

/// Ends a report: it fails with `failure` if some check did not hold.
pub(crate) fn conclude(lines: Vec<ReportLine>, failure: &str) -> (r: AssertReport)
    ensures
        shows(r, report_lines(lines@), failure@),
{
    let ghost all = report_lines(lines@);
    let mut i: usize = 0;
    while i < lines.len()
        invariant
            i <= lines@.len(),
            all == report_lines(lines@),
            forall|j: int| 0 <= j < i ==> !is_failure(#[trigger] all[j]),
        decreases lines@.len() - i,
    {
        assert(all[i as int] == lines@[i as int]@);
        let bad = match &lines[i] {
            ReportLine::Status { ok, .. } => !*ok,
            ReportLine::Detail { .. } => false,
        };
        if bad {
            assert(is_failure(all[i as int]));
            return AssertReport { lines, outcome: Err(PlanError::text(failure)) };
        }
        i += 1;
    }
    AssertReport { lines, outcome: Ok(()) }
}

// ---------------------------------------------------------------------------
// Files
// ---------------------------------------------------------------------------

/// Whether a text is a mode: one to four octal digits.
pub open spec fn is_mode(mode: Seq<char>) -> bool {
    1 <= mode.len() <= 4 && forall|i: int| 0 <= i < mode.len() ==> is_octal(#[trigger] mode[i])
}

/// That many zeros.
pub open spec fn zeros(n: int) -> Seq<char> {
    Seq::new(n as nat, |i: int| '0')
}

/// A mode with the leading zeros that make it four digits long. A text that is no mode stays
/// as it is.
pub open spec fn normal_mode(mode: Seq<char>) -> Seq<char> {
    if is_mode(mode) {
        zeros(4 - mode.len()) + mode
    } else {
        mode
    }
}

fn reads_as_mode(mode: &Vec<char>) -> (r: bool)
    ensures
        r == is_mode(mode@),
{
    if mode.len() == 0 || mode.len() > 4 {
        return false;
    }
    let mut i: usize = 0;
    while i < mode.len()
        invariant
            i <= mode@.len(),
            forall|j: int| 0 <= j < i ==> is_octal(#[trigger] mode@[j]),
        decreases mode@.len() - i,
    {
        if !('0' <= mode[i] && mode[i] <= '7') {
            assert(!is_octal(mode@[i as int]));
            return false;
        }
        i += 1;
    }
    true
}

/// A mode with the leading zeros that make it four digits long. A text that is no mode stays
/// as it is.
pub fn normalize_mode(mode: &str) -> (r: String)
    ensures
        r@ == normal_mode(mode@),
{
    let v = to_chars(mode);
    if !reads_as_mode(&v) {
        return mode.to_owned();
    }
    proof {
        reveal_strlit("0");
        reveal_strlit("00");
        reveal_strlit("000");
    }
    if v.len() == 1 {
        assert("000"@ =~= zeros(3));
        cat2("000", mode)
    } else if v.len() == 2 {
        assert("00"@ =~= zeros(2));
        cat2("00", mode)
    } else if v.len() == 3 {
        assert("0"@ =~= zeros(1));
        cat2("0", mode)
    } else {
        assert(zeros(0) + mode@ =~= mode@);
        mode.to_owned()
    }
}

/// The number that octal digits stand for.
pub open spec fn octal_value(digits: Seq<char>) -> int
    decreases digits.len(),
{
    if digits.len() == 0 {
        0
    } else {
        octal_value(digits.drop_last()) * 8 + (digits.last() as int - '0' as int)
    }
}

proof fn lemma_leading_zeros(n: nat, digits: Seq<char>)
    ensures
        octal_value(zeros(n as int) + digits) == octal_value(digits),
    decreases digits.len(), n,
{
    let all = zeros(n as int) + digits;
    if digits.len() > 0 {
        assert(all.drop_last() =~= zeros(n as int) + digits.drop_last());
        assert(all.last() == digits.last());
        lemma_leading_zeros(n, digits.drop_last());
    } else if n > 0 {
        assert(all.drop_last() =~= zeros(n - 1) + digits);
        assert(all.last() == '0');
        lemma_leading_zeros((n - 1) as nat, digits);
    } else {
        assert(all =~= digits);
    }
}

/// A normalised mode is four octal digits, and the same mode.
pub proof fn normal_modes_have_four_digits(mode: Seq<char>)
    requires
        is_mode(mode),
    ensures
        is_mode(normal_mode(mode)),
        normal_mode(mode).len() == 4,
        octal_value(normal_mode(mode)) == octal_value(mode),
{
    lemma_leading_zeros((4 - mode.len()) as nat, mode);
    let normal = normal_mode(mode);
    let n = 4 - mode.len();
    assert forall|i: int| 0 <= i < normal.len() implies is_octal(#[trigger] normal[i]) by {
        if i >= n {
            assert(normal[i] == mode[i - n]);
        }
    }
}

/// A mode that was normalised stays as it is: modes with and without leading zeros compare
/// equal once both are normalised.
pub proof fn normal_modes_are_stable(mode: Seq<char>)
    ensures
        normal_mode(normal_mode(mode)) == normal_mode(mode),
        is_mode(mode) && mode.len() < 4 ==> normal_mode("0"@ + mode) == normal_mode(mode),
{
    if is_mode(mode) {
        normal_modes_have_four_digits(mode);
        assert(zeros(0) + normal_mode(mode) =~= normal_mode(mode));
        if mode.len() < 4 {
            reveal_strlit("0");
            let longer = "0"@ + mode;
            assert forall|i: int| 0 <= i < longer.len() implies is_octal(#[trigger] longer[i]) by {
                if i > 0 {
                    assert(longer[i] == mode[i - 1]);
                }
            }
            assert(normal_mode(longer) =~= normal_mode(mode));
        }
    }
}

/// What stands before and behind the first `c`.
pub open spec fn split_once(s: Seq<char>, c: char) -> Option<(Seq<char>, Seq<char>)> {
    match find_char(s, c) {
        Some(i) => Some((s.take(i), s.skip(i + 1))),
        None => None,
    }
}

pub(crate) fn text_split_once(s: &str, c: char) -> (r: Option<(String, String)>)
    ensures
        match r {
            Some(p) => split_once(s@, c) == Some((p.0@, p.1@)),
            None => split_once(s@, c) is None,
        },
{
    let v = to_chars(s);
    match position(&v, c, 0) {
        Some(i) => Some((slice(&v, 0, i), slice(&v, i + 1, v.len()))),
        None => None,
    }
}

/// What a probe tells of a path that is there.
#[derive(Debug)]
pub struct FileFacts {
    pub filetype: String,
    pub owner: String,
    pub group: String,
    pub mode: String,
}

/// The model of [`FileFacts`]: type, owner, group and mode.
pub type Facts = (Seq<char>, Seq<char>, Seq<char>, Seq<char>);

/// The four fields of `type:owner:group:mode`; the mode takes what is left.
pub open spec fn facts(s: Seq<char>) -> Option<Facts> {
    match split_once(s, ':') {
        Some((filetype, s1)) => match split_once(s1, ':') {
            Some((owner, s2)) => match split_once(s2, ':') {
                Some((group, mode)) => Some((filetype, owner, group, mode)),
                None => None,
            },
            None => None,
        },
        None => None,
    }
}

fn read_facts(s: &str) -> (r: Option<FileFacts>)
    ensures
        match r {
            Some(f) => facts(s@) == Some((f.filetype@, f.owner@, f.group@, f.mode@)),
            None => facts(s@) is None,
        },
{
    match text_split_once(s, ':') {
        Some((filetype, s1)) => match text_split_once(s1.as_str(), ':') {
            Some((owner, s2)) => match text_split_once(s2.as_str(), ':') {
                Some((group, mode)) => Some(FileFacts { filetype, owner, group, mode }),
                None => None,
            },
            None => None,
        },
        None => None,
    }
}

/// What is wrong with an attribute: nothing if none is expected or it is as
/// expected.
pub open spec fn mismatch(
    attribute: Seq<char>,
    expected: Option<Seq<char>>,
    actual: Seq<char>,
) -> Seq<Seq<char>> {
    match expected {
        Some(e) if e != actual => seq![attribute + ": expected "@ + e + ", got "@ + actual],
        _ => seq![],
    }
}

fn push_mismatch(failures: &mut Vec<String>, attribute: &str, expected: &str, actual: &str)
    ensures
        texts(final(failures)@) == texts(old(failures)@) + mismatch(
            attribute@,
            Some(expected@),
            actual@,
        ),
{
    let ghost had = texts(failures@);
    if !same(expected, actual) {
        let text = cat5(attribute, ": expected ", expected, ", got ", actual);
        failures.push(text);
        assert(texts(failures@) =~= had + mismatch(attribute@, Some(expected@), actual@));
    } else {
        assert(had + mismatch(attribute@, Some(expected@), actual@) =~= had);
    }
}

/// What is wrong with a path of which the probe printed `line`.
pub open spec fn file_failures(path: Seq<char>, expected: AssertFile, line: Seq<char>) -> Seq<
    Seq<char>,
> {
    if line == "absent"@ {
        if expected.exists {
            seq!["exists: expected present, got absent"@]
        } else {
            seq![]
        }
    } else if !expected.exists {
        seq!["exists: expected absent, but path exists"@]
    } else if !starts_with(line, "present:"@) {
        seq!["assert.files: unexpected probe output for '"@ + path + "': "@ + line]
    } else {
        match facts(line.skip("present:"@.len() as int)) {
            None => seq!["assert.files: malformed probe output for '"@ + path + "': "@ + line],
            Some((filetype, owner, group, mode)) => mismatch(
                "filetype"@,
                match expected.filetype {
                    Some(t) => Some(t.word()),
                    None => None,
                },
                filetype,
            ) + mismatch("owner"@, opt_text(expected.owner), owner) + mismatch(
                "group"@,
                opt_text(expected.group),
                group,
            ) + mismatch(
                "mode"@,
                match expected.mode {
                    Some(m) => Some(normal_mode(m@)),
                    None => None,
                },
                normal_mode(mode),
            ),
        }
    }
}

/// What is wrong with `path`, of which the probe printed `raw_line`.
pub fn check_one_path(path: &str, expectation: &AssertFile, raw_line: &str) -> (r: Vec<String>)
    ensures
        texts(r@) == file_failures(path@, *expectation, raw_line@),
{
    let mut failures: Vec<String> = Vec::new();
    let ghost want = file_failures(path@, *expectation, raw_line@);
    if same(raw_line, "absent") {
        if expectation.exists {
            failures.push("exists: expected present, got absent".to_owned());
        }
        assert(texts(failures@) =~= want);
        return failures;
    }
    if !expectation.exists {
        failures.push("exists: expected absent, but path exists".to_owned());
        assert(texts(failures@) =~= want);
        return failures;
    }
    let rest = match without_prefix(raw_line, "present:") {
        Some(rest) => rest,
        None => {
            failures.push(
                cat4("assert.files: unexpected probe output for '", path, "': ", raw_line),
            );
            assert(texts(failures@) =~= want);
            return failures;
        },
    };
    let actual = match read_facts(rest.as_str()) {
        Some(actual) => actual,
        None => {
            failures.push(
                cat4("assert.files: malformed probe output for '", path, "': ", raw_line),
            );
            assert(texts(failures@) =~= want);
            return failures;
        },
    };
    let actual_mode = normalize_mode(actual.mode.as_str());
    if let Some(filetype) = expectation.filetype {
        push_mismatch(&mut failures, "filetype", filetype.as_str(), actual.filetype.as_str());
    }
    if let Some(owner) = &expectation.owner {
        push_mismatch(&mut failures, "owner", owner.as_str(), actual.owner.as_str());
    }
    if let Some(group) = &expectation.group {
        push_mismatch(&mut failures, "group", group.as_str(), actual.group.as_str());
    }
    if let Some(mode) = &expectation.mode {
        let expected_mode = normalize_mode(mode.as_str());
        push_mismatch(&mut failures, "mode", expected_mode.as_str(), actual_mode.as_str());
    }
    assert(texts(failures@) =~= want);
    failures
}

/// What a file probe's report shows of the first `n` paths.
pub open spec fn files_report(
    files: Seq<(String, AssertFile)>,
    lines: Seq<Seq<char>>,
    n: nat,
) -> Seq<LineView>
    decreases n,
{
    if n == 0 {
        seq![]
    } else {
        let i = n - 1;
        let failures = file_failures(files[i].0@, files[i].1, line_or(lines, i, "absent"@));
        files_report(files, lines, i as nat) + seq![
            LineView::Status { label: files[i].0@, ok: failures.len() == 0 },
        ] + details(failures)
    }
}

/// Holds what a file probe printed against what is expected of the paths.
pub fn evaluate_probe_results(files: &Vec<(String, AssertFile)>, probe_output: &str) -> (r:
    AssertReport)
    ensures
        shows(
            r,
            files_report(files@, lines(probe_output@), files@.len()),
            "one or more assert.files: checks failed"@,
        ),
{
    let mut cursor = LineCursor::new(probe_output);
    let ghost ls = lines(probe_output@);
    let mut report: Vec<ReportLine> = Vec::new();
    let mut i: usize = 0;
    assert(report_lines(report@) =~= seq![]);
    assert(after_lines(ls, 0) =~= ls);
    while i < files.len()
        invariant
            i <= files@.len(),
            ls == lines(probe_output@),
            cursor.rest() == after_lines(ls, i as int),
            report_lines(report@) == files_report(files@, ls, i as nat),
        decreases files@.len() - i,
    {
        let raw_line = cursor.next_or("absent");
        assert(raw_line@ == line_or(ls, i as int, "absent"@));
        assert(cursor.rest() =~= after_lines(ls, i + 1));
        let failures = check_one_path(files[i].0.as_str(), &files[i].1, raw_line.as_str());
        assert(texts(failures@).len() == failures@.len());
        push_status(&mut report, files[i].0.clone(), failures.len() == 0);
        push_details(&mut report, &failures);
        i += 1;
    }
    conclude(report, "one or more assert.files: checks failed")
}

/// Runs the `assert.files:` phase on what its probe gave.
pub fn run_assert_files(assert_block: &AssertBlock, probe: &Result<String, PlanError>) -> (r:
    AssertReport)
    ensures
        assert_block.files@.len() == 0 ==> r.outcome is Ok && r.lines@.len() == 0,
        assert_block.files@.len() > 0 && probe is Err ==> r.outcome is Err,
        assert_block.files@.len() == 0 ==> shows(r, seq![], ""@),
        assert_block.files@.len() > 0 ==> match probe {
            Ok(output) => shows(
                r,
                files_report(assert_block.files@, lines(output@), assert_block.files@.len()),
                "one or more assert.files: checks failed"@,
            ),
            Err(e) => breaks_off(
                r,
                "assert.files: privileged probe failed: sudo -n not available or failed ("@ + e@
                    + ")"@,
            ),
        },
{
    if assert_block.files.len() == 0 {
        let lines: Vec<ReportLine> = Vec::new();
        assert(report_lines(lines@) =~= seq![]);
        return conclude(lines, "");
    }
    match probe {
        Ok(output) => evaluate_probe_results(&assert_block.files, output.as_str()),
        Err(e) => AssertReport {
            lines: Vec::new(),
            outcome: Err(
                PlanError::new(
                    cat3(
                        "assert.files: privileged probe failed: sudo -n not available or failed (",
                        e.message.as_str(),
                        ")",
                    ),
                ),
            ),
        },
    }
}

} // verus!
