//! What a run shows on the terminal and keeps in its log files.

use vstd::prelude::*;
use vstd::string::*;

use crate::budget::NANOS_PER_SEC;
use crate::guest::{replace_char, replaced};
use crate::numbers::{lowered, to_lower};
use crate::paths::{join_path, joined_path};
use crate::strings::{cat2, cat3, cat4, cat5, decimal_u128, same, to_chars, trimmed};
use crate::text::{decimal, opt_slice, trim};

verus! {

// ---------------------------------------------------------------------------
// Colour
// ---------------------------------------------------------------------------

/// What decides whether a terminal gets colour.
#[derive(Debug, PartialEq, Eq)]
pub struct ColorSettings {
    /// Whether colour was asked for on the command line.
    pub forced: bool,
    /// The value of `FORCE_COLOR`.
    pub force_color: Option<String>,
    /// The value of `CLICOLOR_FORCE`.
    pub clicolor_force: Option<String>,
    /// Whether `NO_COLOR` is set.
    pub no_color: bool,
    /// Whether the standard error is a terminal.
    pub terminal: bool,
}

/// Takes over whether colour was asked for on the command line.
pub fn init_force_color(settings: &mut ColorSettings, force: bool)
    ensures
        *final(settings) == (ColorSettings { forced: force, ..*old(settings) }),
{
    settings.forced = force;
}

/// Whether the value of a variable means yes.
pub open spec fn truthy(value: Seq<char>) -> bool {
    let word = lowered(trim(value));
    word == "1"@ || word == "true"@ || word == "yes"@
}

/// Whether a variable is set to a value that means yes.
pub open spec fn set_truthy(value: Option<String>) -> bool {
    match value {
        Some(s) => truthy(s@),
        None => false,
    }
}

fn is_truthy(value: &Option<String>) -> (r: bool)
    ensures
        r == set_truthy(*value),
{
    match value {
        Some(s) => {
            let t = trimmed(s.as_str());
            let word = to_lower(t.as_str());
            same(word.as_str(), "1") || same(word.as_str(), "true") || same(word.as_str(), "yes")
        },
        None => false,
    }
}

/// Whether the environment asks for colour.
pub fn is_force_color_env(settings: &ColorSettings) -> (r: bool)
    ensures
        r == (set_truthy(settings.force_color) || set_truthy(settings.clicolor_force)),
{
    is_truthy(&settings.force_color) || is_truthy(&settings.clicolor_force)
}

/// Whether the standard error gets colour. Who asks for colour gets it; else
/// `NO_COLOR` turns it off; else a terminal gets it.
pub fn stderr_color_enabled(settings: &ColorSettings) -> (r: bool)
    ensures
        r == (settings.forced || set_truthy(settings.force_color) || set_truthy(
            settings.clicolor_force,
        ) || (!settings.no_color && settings.terminal)),
{
    if settings.forced || is_force_color_env(settings) {
        return true;
    }
    if settings.no_color {
        return false;
    }
    settings.terminal
}

// ---------------------------------------------------------------------------
// Log files
// ---------------------------------------------------------------------------

/// A stream of a step's output.
#[derive(Clone, Copy, Debug, PartialEq, Eq, Structural)]
pub enum StepOutputStream {
    Stdout,
    Stderr,
}

impl StepOutputStream {
    /// The name of the stream.
    pub open spec fn word(self) -> Seq<char> {
        match self {
            StepOutputStream::Stdout => "stdout"@,
            StepOutputStream::Stderr => "stderr"@,
        }
    }

    /// The name of the stream.
    pub fn as_str(self) -> (r: &'static str)
        ensures
            r@ == self.word(),
    {
        match self {
            StepOutputStream::Stdout => "stdout",
            StepOutputStream::Stderr => "stderr",
        }
    }
}

/// Whether a character can stand in the name of a log file.
pub open spec fn is_plain(c: char) -> bool {
    ||| 'A' <= c <= 'Z'
    ||| 'a' <= c <= 'z'
    ||| '0' <= c <= '9'
    ||| c == '.'
    ||| c == '_'
    ||| c == '-'
}

/// `name` with an underscore for every character that cannot stand in the name of a
/// log file.
pub open spec fn sanitized(name: Seq<char>) -> Seq<char> {
    name.map_values(
        |c: char|
            if is_plain(c) {
                c
            } else {
                '_'
            },
    )
}

/// `name` with an underscore for every character that cannot stand in the name of a
/// log file.
pub fn sanitize_step_log_name(name: &str) -> (r: String)
    ensures
        r@ == sanitized(name@),
{
    let v = to_chars(name);
    let ghost want = sanitized(name@);
    let mut r = String::new();
    assert(r@ =~= want.take(0));
    let mut i: usize = 0;
    while i < v.len()
        invariant
            i <= v@.len(),
            v@ == name@,
            want == sanitized(name@),
            r@ == want.take(i as int),
        decreases v@.len() - i,
    {
        let c = v[i];
        if ('A' <= c && c <= 'Z') || ('a' <= c && c <= 'z') || ('0' <= c && c <= '9') || c == '.'
            || c == '_' || c == '-' {
            r.push(c);
        } else {
            r.push('_');
        }
        assert(r@ =~= want.take(i + 1));
        i += 1;
    }
    assert(want.take(i as int) =~= want);
    r
}

/// A name that was made fit for a log file has as many characters as before, all of
/// them plain, so no separator of paths; and it stays as it is when it is made fit
/// again.
pub proof fn sanitized_names_are_plain(name: Seq<char>)
    ensures
        sanitized(name).len() == name.len(),
        forall|k: int| 0 <= k < name.len() ==> is_plain(#[trigger] sanitized(name)[k]),
        !sanitized(name).contains('/'),
        sanitized(sanitized(name)) == sanitized(name),
{
    assert forall|k: int| 0 <= k < name.len() implies is_plain(
        #[trigger] sanitized(name)[k],
    ) by {
        assert(is_plain('_'));
    }
    assert(sanitized(sanitized(name)) =~= sanitized(name));
}

/// The log file of a step.
pub open spec fn log_path(log_dir: Seq<char>, display: Seq<char>, name: Seq<char>) -> Seq<char> {
    joined_path(
        log_dir,
        "step-"@ + replaced(display, '.', '-') + "-"@ + sanitized(name) + ".log"@,
    )
}

/// The log file of a step.
pub fn step_log_path(log_dir: &str, step_display: &str, step_name: &str) -> (r: String)
    ensures
        r@ == log_path(log_dir@, step_display@, step_name@),
{
    let safe = replace_char(step_display, '.', '-');
    let name = sanitize_step_log_name(step_name);
    let file = cat5("step-", safe.as_str(), "-", name.as_str(), ".log");
    join_path(log_dir, file.as_str())
}

// ---------------------------------------------------------------------------
// Titles and markers
// ---------------------------------------------------------------------------

/// The counter of a step: its index, and its identifier if it has one.
pub open spec fn counter(display: Seq<char>, id: Option<Seq<char>>) -> Seq<char> {
    match id {
        Some(id) => display + "/"@ + id,
        None => display,
    }
}

fn counter_text(display: &str, id: Option<&str>) -> (r: String)
    ensures
        r@ == counter(display@, opt_slice(id)),
{
    match id {
        Some(id) => cat3(display, "/", id),
        None => display.to_owned(),
    }
}

/// The line that announces a phase or a step.
pub open spec fn title(label: Seq<char>, description: Seq<char>, color: bool) -> Seq<char> {
    if color {
        "🤖 \x1b[2m("@ + label + ")\x1b[0m \x1b[1m"@ + description + "\x1b[0m"@
    } else {
        "🤖 ("@ + label + ") "@ + description
    }
}

/// The line that announces a phase.
pub fn phase_title_line(label: &str, description: &str, color: bool) -> (r: String)
    ensures
        r@ == title(label@, description@, color),
{
    if color {
        cat5("🤖 \x1b[2m(", label, ")\x1b[0m \x1b[1m", description, "\x1b[0m")
    } else {
        cat4("🤖 (", label, ") ", description)
    }
}

/// The line that announces a step.
pub fn step_title_line(step_display: &str, name: &str, id: Option<&str>, color: bool) -> (r: String)
    ensures
        r@ == title(counter(step_display@, opt_slice(id)), name@, color),
{
    let label = counter_text(step_display, id);
    phase_title_line(label.as_str(), name, color)
}

/// `n` with a zero in front if it has one digit.
pub open spec fn two_digits(n: nat) -> Seq<char> {
    if n < 10 {
        "0"@ + decimal(n)
    } else {
        decimal(n)
    }
}

/// A time in minutes and seconds, or in seconds if it is below a minute. Parts of a
/// second are dropped.
pub open spec fn shown_duration(time: nat) -> Seq<char> {
    let secs = time / (NANOS_PER_SEC as nat);
    if secs >= 60 {
        decimal(secs / 60) + "m "@ + two_digits(secs % 60) + "s"@
    } else {
        decimal(secs) + "s"@
    }
}

/// A time, given in nanoseconds, in minutes and seconds.
pub fn format_completion_duration(duration: u128) -> (r: String)
    ensures
        r@ == shown_duration(duration as nat),
{
    let total: u128 = duration / NANOS_PER_SEC;
    if total >= 60 {
        let minutes = decimal_u128(total / 60);
        let rest: u128 = total % 60;
        let seconds = decimal_u128(rest);
        if rest < 10 {
            let padded = cat2("0", seconds.as_str());
            cat4(minutes.as_str(), "m ", padded.as_str(), "s")
        } else {
            cat4(minutes.as_str(), "m ", seconds.as_str(), "s")
        }
    } else {
        let seconds = decimal_u128(total);
        cat2(seconds.as_str(), "s")
    }
}

/// How long something took, if that is known.
pub open spec fn duration_suffix(duration: Option<u128>) -> Seq<char> {
    match duration {
        Some(d) => " (completed in "@ + shown_duration(d as nat) + ")"@,
        None => seq![],
    }
}

/// How long something took, if that is known.
pub fn completion_duration_suffix(duration: Option<u128>) -> (r: String)
    ensures
        r@ == duration_suffix(duration),
{
    match duration {
        Some(d) => {
            let shown = format_completion_duration(d);
            cat3(" (completed in ", shown.as_str(), ")")
        },
        None => {
            let r = String::new();
            assert(r@ =~= seq![]);
            r
        },
    }
}

/// The line that tells how a phase or a step ended.
pub open spec fn status(
    label: Seq<char>,
    description: Seq<char>,
    success: bool,
    color: bool,
) -> Seq<char> {
    if color && success {
        " \x1b[32m✓\x1b[0m \x1b[2m("@ + label + ")\x1b[0m \x1b[2m"@ + description + "\x1b[0m"@
    } else if color {
        " \x1b[31m✗\x1b[0m \x1b[2m("@ + label + ")\x1b[0m "@ + description
    } else if success {
        " ✓ ("@ + label + ") "@ + description
    } else {
        " ✗ ("@ + label + ") "@ + description
    }
}

/// The line that tells how a phase ended.
pub fn phase_status_marker_with_duration(
    label: &str,
    description: &str,
    success: bool,
    color: bool,
    duration: Option<u128>,
) -> (r: String)
    ensures
        r@ == status(label@, description@ + duration_suffix(duration), success, color),
{
    let suffix = completion_duration_suffix(duration);
    let full = cat2(description, suffix.as_str());
    if color {
        if success {
            cat5(
                " \x1b[32m✓\x1b[0m \x1b[2m(",
                label,
                ")\x1b[0m \x1b[2m",
                full.as_str(),
                "\x1b[0m",
            )
        } else {
            cat4(" \x1b[31m✗\x1b[0m \x1b[2m(", label, ")\x1b[0m ", full.as_str())
        }
    } else if success {
        cat4(" ✓ (", label, ") ", full.as_str())
    } else {
        cat4(" ✗ (", label, ") ", full.as_str())
    }
}

/// The line that tells how a step ended.
pub fn step_status_marker(
    step_display: &str,
    name: &str,
    success: bool,
    id: Option<&str>,
    color: bool,
    duration: Option<u128>,
) -> (r: String)
    ensures
        r@ == status(
            counter(step_display@, opt_slice(id)),
            name@ + duration_suffix(duration),
            success,
            color,
        ),
{
    let label = counter_text(step_display, id);
    phase_status_marker_with_duration(label.as_str(), name, success, color, duration)
}

/// The line that tells that a step was skipped.
pub fn step_skipped_marker(step_display: &str, name: &str, id: Option<&str>, color: bool) -> (r:
    String)
    ensures
        r@ == if color {
            " ⊘ \x1b[2m("@ + counter(step_display@, opt_slice(id)) + ")\x1b[0m \x1b[2m"@ + name@
                + "\x1b[0m"@
        } else {
            " ⊘ ("@ + counter(step_display@, opt_slice(id)) + ") "@ + name@
        },
{
    let label = counter_text(step_display, id);
    if color {
        cat5(" ⊘ \x1b[2m(", label.as_str(), ")\x1b[0m \x1b[2m", name, "\x1b[0m")
    } else {
        cat4(" ⊘ (", label.as_str(), ") ", name)
    }
}

/// The line that tells how a command ended.
pub fn final_outcome_line(command: &str, success: bool, color: bool) -> (r: String)
    ensures
        r@ == if success && color {
            "😎 \x1b[2m"@ + command@ + " completed\x1b[0m"@
        } else if success {
            "😎 "@ + command@ + " completed"@
        } else {
            "😩 "@ + command@ + " failed"@
        },
{
    if success {
        if color {
            cat3("😎 \x1b[2m", command, " completed\x1b[0m")
        } else {
            cat3("😎 ", command, " completed")
        }
    } else {
        cat3("😩 ", command, " failed")
    }
}

// ---------------------------------------------------------------------------
// Lines of a stream of bytes
// ---------------------------------------------------------------------------

/// The position of the first end of a line.
pub open spec fn first_newline(bytes: Seq<u8>) -> Option<int>
    decreases bytes.len(),
{
    if bytes.len() == 0 {
        None
    } else if bytes[0] == 10 {
        Some(0int)
    } else {
        match first_newline(bytes.skip(1)) {
            Some(k) => Some(k + 1),
            None => None,
        }
    }
}

/// The complete lines at the start of `bytes`, without their ends.
pub open spec fn complete_lines(bytes: Seq<u8>) -> Seq<Seq<u8>>
    decreases bytes.len(),
{
    match first_newline(bytes) {
        Some(k) if 0 <= k < bytes.len() => seq![bytes.take(k)] + complete_lines(
            bytes.skip(k + 1),
        ),
        _ => seq![],
    }
}

/// What stands behind the last complete line of `bytes`.
pub open spec fn partial_line(bytes: Seq<u8>) -> Seq<u8>
    decreases bytes.len(),
{
    match first_newline(bytes) {
        Some(k) if 0 <= k < bytes.len() => partial_line(bytes.skip(k + 1)),
        _ => bytes,
    }
}

/// The contents of a list of byte strings.
pub open spec fn byte_lines(v: Seq<Vec<u8>>) -> Seq<Seq<u8>> {
    v.map_values(|b: Vec<u8>| b@)
}

proof fn lemma_first_newline(bytes: Seq<u8>)
    ensures
        match first_newline(bytes) {
            Some(k) => 0 <= k < bytes.len() && bytes[k] == 10 && forall|j: int|
                0 <= j < k ==> #[trigger] bytes[j] != 10,
            None => forall|j: int| 0 <= j < bytes.len() ==> #[trigger] bytes[j] != 10,
        },
    decreases bytes.len(),
{
    if bytes.len() > 0 && bytes[0] != 10 {
        let rest = bytes.skip(1);
        lemma_first_newline(rest);
        assert(forall|j: int| 1 <= j < bytes.len() ==> bytes[j] == #[trigger] rest[j - 1]);
        match first_newline(rest) {
            Some(k) => {
                assert forall|j: int| 0 <= j < k + 1 implies #[trigger] bytes[j] != 10 by {
                    if j > 0 {
                        assert(rest[j - 1] != 10);
                    }
                }
            },
            None => {
                assert forall|j: int| 0 <= j < bytes.len() implies #[trigger] bytes[j] != 10 by {
                    if j > 0 {
                        assert(rest[j - 1] != 10);
                    }
                }
            },
        }
    }
}

proof fn lemma_newline_at(bytes: Seq<u8>, k: int)
    requires
        0 <= k < bytes.len(),
        bytes[k] == 10,
        forall|j: int| 0 <= j < k ==> #[trigger] bytes[j] != 10,
    ensures
        first_newline(bytes) == Some(k),
{
    lemma_first_newline(bytes);
    match first_newline(bytes) {
        Some(n) => {
            if n < k {
                assert(bytes[n] != 10);
            }
        },
        None => {
            assert(bytes[k] != 10);
        },
    }
}

/// Takes the complete lines out of what a stream has brought, without their ends. What
/// stands behind the last of them stays until more comes.
pub fn flush_log_lines(pending: &mut Vec<u8>) -> (r: Vec<Vec<u8>>)
    ensures
        byte_lines(r@) == complete_lines(old(pending)@),
        final(pending)@ == partial_line(old(pending)@),
{
    let ghost all = pending@;
    let mut done: Vec<Vec<u8>> = Vec::new();
    let mut line: Vec<u8> = Vec::new();
    let ghost mut start: int = 0;
    let mut i: usize = 0;
    assert(all.skip(0) =~= all);
    assert(byte_lines(done@) + complete_lines(all.skip(0)) =~= complete_lines(all));
    while i < pending.len()
        invariant
            i <= pending@.len(),
            pending@ == all,
            0 <= start <= i,
            line@ == all.subrange(start, i as int),
            forall|j: int| 0 <= j < line@.len() ==> #[trigger] line@[j] != 10,
            byte_lines(done@) + complete_lines(all.skip(start)) == complete_lines(all),
            partial_line(all.skip(start)) == partial_line(all),
        decreases pending@.len() - i,
    {
        let b: u8 = pending[i];
        if b == 10 {
            let ghost had = byte_lines(done@);
            let ghost view = line@;
            let ghost rest = all.skip(start);
            proof {
                let k = i - start;
                assert(rest[k] == 10);
                assert forall|j: int| 0 <= j < k implies #[trigger] rest[j] != 10 by {
                    assert(view[j] == rest[j]);
                }
                lemma_newline_at(rest, k);
                assert(rest.take(k) =~= view);
                assert(rest.skip(k + 1) =~= all.skip(i + 1));
            }
            done.push(line);
            line = Vec::new();
            assert(byte_lines(done@) =~= had.push(view));
            assert(byte_lines(done@) + complete_lines(all.skip(i + 1)) =~= had + complete_lines(
                rest,
            ));
            proof {
                start = i + 1;
            }
            assert(line@ =~= all.subrange(start, i + 1));
        } else {
            line.push(b);
            assert(line@ =~= all.subrange(start, i + 1));
        }
        i += 1;
    }
    proof {
        let rest = all.skip(start);
        lemma_first_newline(rest);
        assert(line@ =~= rest);
        if let Some(k) = first_newline(rest) {
            assert(line@[k] != 10);
        }
        assert(byte_lines(done@) + complete_lines(rest) =~= byte_lines(done@));
    }
    *pending = line;
    done
}

/// The lines of a stream do not depend on the chunks it comes in: taking the lines of a
/// first part, and then those of what was left with a second part behind it, gives the
/// lines of the two parts together.
pub proof fn lines_do_not_depend_on_chunks(a: Seq<u8>, b: Seq<u8>)
    ensures
        complete_lines(a + b) == complete_lines(a) + complete_lines(partial_line(a) + b),
        partial_line(a + b) == partial_line(partial_line(a) + b),
    decreases a.len(),
{
    lemma_first_newline(a);
    match first_newline(a) {
        Some(k) => {
            let rest = a.skip(k + 1);
            assert forall|j: int| 0 <= j < k implies #[trigger] (a + b)[j] != 10 by {
                assert((a + b)[j] == a[j]);
            }
            lemma_newline_at(a + b, k);
            assert((a + b).take(k) =~= a.take(k));
            assert((a + b).skip(k + 1) =~= rest + b);
            lines_do_not_depend_on_chunks(rest, b);
            assert(complete_lines(a + b) =~= complete_lines(a) + complete_lines(
                partial_line(a) + b,
            ));
        },
        None => {
            assert(complete_lines(a) + complete_lines(a + b) =~= complete_lines(a + b));
        },
    }
}

/// No byte of a stream is lost: its complete lines with their ends, and what stands
/// behind them, are the stream.
pub proof fn lines_hold_every_byte(bytes: Seq<u8>)
    ensures
        ended(complete_lines(bytes)) + partial_line(bytes) == bytes,
    decreases bytes.len(),
{
    lemma_first_newline(bytes);
    match first_newline(bytes) {
        Some(k) => {
            let rest = bytes.skip(k + 1);
            lines_hold_every_byte(rest);
            let all = complete_lines(bytes);
            assert(all.skip(1) =~= complete_lines(rest));
            assert(all[0] =~= bytes.take(k));
            assert(ended(all) =~= bytes.take(k) + seq![10u8] + ended(complete_lines(rest)));
            assert(ended(all) + partial_line(bytes) =~= bytes.take(k) + seq![10u8] + rest);
            assert(bytes.take(k) + seq![10u8] + rest =~= bytes);
        },
        None => {
            assert(ended(complete_lines(bytes)) + bytes =~= bytes);
        },
    }
}

/// Lines with their ends, one behind another.
pub open spec fn ended(lines: Seq<Seq<u8>>) -> Seq<u8>
    decreases lines.len(),
{
    if lines.len() == 0 {
        seq![]
    } else {
        lines[0] + seq![10u8] + ended(lines.skip(1))
    }
}

} // verus!
