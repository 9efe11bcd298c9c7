//! What is expected of a step's outcome, and what it failed of that.

use vstd::prelude::*;
use vstd::string::*;

use crate::error::{PlanError, outcome};
use crate::step::{ExpectBlock, StdioExpect};
use crate::strings::{cat2, cat4, contains, decimal_i64, joined};
use crate::text::{find, join, signed_decimal, texts};

verus! {

/// What a step wrote.
#[derive(Debug, PartialEq, Eq)]
pub struct StepCapture {
    pub stdout: String,
    pub stderr: String,
}

/// The quoted and escaped form of a text, as `{:?}` of the standard library's
/// formatting macros renders it.
pub uninterp spec fn debug_form(text: Seq<char>) -> Seq<char>;

/// The quoted and escaped form of a text.
///
/// This calls the implementation of `std::fmt::Debug` for `str` through `format!`. The
/// contract claims that the result is a function of the text alone; which characters
/// are escaped, and how, is left to the standard library.
#[verifier::external_body]
fn debug_text(text: &str) -> (r: String)
    ensures
        r@ == debug_form(text@),
{
    format!("{:?}", text)
}

/// The message that a stream lacks a text, which is shown as `shown`.
pub open spec fn lacks(stream: Seq<char>, shown: Seq<char>) -> Seq<char> {
    stream + ": expected to contain "@ + shown + ", not found"@
}

/// The message that a stream lacks a text, which is shown as `shown`.
pub fn missing_message(stream: &str, shown: &str) -> (r: String)
    ensures
        r@ == lacks(stream@, shown@),
{
    cat4(stream, ": expected to contain ", shown, ", not found")
}

/// The message that a stream holds a text, which is shown as `shown`, though it should
/// not.
pub open spec fn holds(stream: Seq<char>, shown: Seq<char>) -> Seq<char> {
    stream + ": expected NOT to contain "@ + shown + ", but it was present"@
}

/// The message that a stream holds a text, which is shown as `shown`, though it should
/// not.
pub fn present_message(stream: &str, shown: &str) -> (r: String)
    ensures
        r@ == holds(stream@, shown@),
{
    cat4(stream, ": expected NOT to contain ", shown, ", but it was present")
}

/// The failures that come from texts that have to appear.
pub open spec fn absences(
    output: Seq<char>,
    stream: Seq<char>,
    needles: Seq<Seq<char>>,
    n: nat,
) -> Seq<Seq<char>>
    decreases n,
{
    if n == 0 {
        seq![]
    } else {
        let front = absences(output, stream, needles, (n - 1) as nat);
        if find(output, needles[n - 1]) is Some {
            front
        } else {
            front.push(lacks(stream, debug_form(needles[n - 1])))
        }
    }
}

/// The failures that come from texts that must not appear.
pub open spec fn presences(
    output: Seq<char>,
    stream: Seq<char>,
    needles: Seq<Seq<char>>,
    n: nat,
) -> Seq<Seq<char>>
    decreases n,
{
    if n == 0 {
        seq![]
    } else {
        let front = presences(output, stream, needles, (n - 1) as nat);
        if find(output, needles[n - 1]) is Some {
            front.push(holds(stream, debug_form(needles[n - 1])))
        } else {
            front
        }
    }
}

/// The failures of a stream.
pub open spec fn stdio_failures(output: Seq<char>, stream: Seq<char>, expect: StdioExpect) -> Seq<
    Seq<char>,
> {
    absences(output, stream, texts(expect.contains@), expect.contains@.len()) + presences(
        output,
        stream,
        texts(expect.not_contains@),
        expect.not_contains@.len(),
    )
}

/// Adds the failures of a stream: the texts that it lacks, then those that it should not
/// hold.
pub fn check_stdio_expect(
    output: &str,
    stream: &str,
    expect: &StdioExpect,
    failures: &mut Vec<String>,
)
    ensures
        texts(final(failures)@) == texts(old(failures)@) + stdio_failures(
            output@,
            stream@,
            *expect,
        ),
{
    let ghost start = texts(failures@);
    let ghost wanted = texts(expect.contains@);
    let ghost unwanted = texts(expect.not_contains@);
    assert(start + absences(output@, stream@, wanted, 0) =~= start);
    let mut i: usize = 0;
    while i < expect.contains.len()
        invariant
            i <= expect.contains@.len(),
            wanted == texts(expect.contains@),
            texts(failures@) == start + absences(output@, stream@, wanted, i as nat),
        decreases expect.contains@.len() - i,
    {
        let needle = expect.contains[i].as_str();
        assert(wanted[i as int] == needle@);
        if !contains(output, needle) {
            let shown = debug_text(needle);
            let ghost had = texts(failures@);
            let message = missing_message(stream, shown.as_str());
            let ghost view = message@;
            failures.push(message);
            assert(texts(failures@) =~= had.push(view));
            assert(texts(failures@) =~= start + absences(
                output@,
                stream@,
                wanted,
                (i + 1) as nat,
            ));
        }
        i += 1;
    }
    let ghost mid = texts(failures@);
    assert(mid + presences(output@, stream@, unwanted, 0) =~= mid);
    let mut j: usize = 0;
    while j < expect.not_contains.len()
        invariant
            j <= expect.not_contains@.len(),
            unwanted == texts(expect.not_contains@),
            texts(failures@) == mid + presences(output@, stream@, unwanted, j as nat),
        decreases expect.not_contains@.len() - j,
    {
        let needle = expect.not_contains[j].as_str();
        assert(unwanted[j as int] == needle@);
        if contains(output, needle) {
            let shown = debug_text(needle);
            let ghost had = texts(failures@);
            let message = present_message(stream, shown.as_str());
            let ghost view = message@;
            failures.push(message);
            assert(texts(failures@) =~= had.push(view));
            assert(texts(failures@) =~= mid + presences(
                output@,
                stream@,
                unwanted,
                (j + 1) as nat,
            ));
        }
        j += 1;
    }
    assert(texts(failures@) =~= start + stdio_failures(output@, stream@, *expect));
}

/// The failures of a stream of which nothing may be expected.
pub open spec fn stream_failures(
    output: Seq<char>,
    stream: Seq<char>,
    expect: Option<StdioExpect>,
) -> Seq<Seq<char>> {
    match expect {
        Some(e) => stdio_failures(output, stream, e),
        None => seq![],
    }
}

/// What a step's outcome fails of what is expected: its exit code, then its standard
/// output, then its standard error.
pub open spec fn expect_failures(expect: ExpectBlock, capture: StepCapture, exit: i32) -> Seq<
    Seq<char>,
> {
    let exits = if exit == expect.exit_code() {
        seq![]
    } else {
        seq![
            "exit: expected "@ + signed_decimal(expect.exit_code() as int) + ", got "@
                + signed_decimal(exit as int),
        ]
    };
    exits + stream_failures(capture.stdout@, "stdout"@, expect.stdout) + stream_failures(
        capture.stderr@,
        "stderr"@,
        expect.stderr,
    )
}

/// The error of a step whose outcome is not as expected.
pub open spec fn expect_error(
    step_name: Seq<char>,
    expect: ExpectBlock,
    capture: StepCapture,
    exit: i32,
) -> Option<Seq<char>> {
    let failures = expect_failures(expect, capture, exit);
    if failures.len() == 0 {
        None
    } else {
        Some("step '"@ + step_name + "' failed outcome assertions: "@ + join(failures, "; "@))
    }
}

/// What a step's outcome fails of what is expected.
pub fn outcome_failures(expect: &ExpectBlock, capture: &StepCapture, actual_exit: i32) -> (r: Vec<
    String,
>)
    ensures
        texts(r@) == expect_failures(*expect, *capture, actual_exit),
{
    let mut failures: Vec<String> = Vec::new();
    assert(texts(failures@) =~= seq![]);
    let expected_exit: i32 = expect.expected_exit();
    if actual_exit != expected_exit {
        let wanted = decimal_i64(expected_exit as i64);
        let got = decimal_i64(actual_exit as i64);
        failures.push(cat4("exit: expected ", wanted.as_str(), ", got ", got.as_str()));
    }
    let ghost exits = if actual_exit == expect.exit_code() {
        seq![]
    } else {
        seq![
            "exit: expected "@ + signed_decimal(expect.exit_code() as int) + ", got "@
                + signed_decimal(actual_exit as int),
        ]
    };
    assert(texts(failures@) =~= exits);
    if let Some(e) = &expect.stdout {
        check_stdio_expect(capture.stdout.as_str(), "stdout", e, &mut failures);
    }
    assert(texts(failures@) =~= exits + stream_failures(
        capture.stdout@,
        "stdout"@,
        expect.stdout,
    ));
    if let Some(e) = &expect.stderr {
        check_stdio_expect(capture.stderr.as_str(), "stderr", e, &mut failures);
    }
    assert(texts(failures@) =~= expect_failures(*expect, *capture, actual_exit));
    failures
}

/// The lines that are shown for what a step's outcome failed: one for each, indented.
pub fn failure_lines(failures: &Vec<String>) -> (r: Vec<String>)
    ensures
        texts(r@) == texts(failures@).map_values(|f: Seq<char>| "  "@ + f),
{
    let mut shown: Vec<String> = Vec::new();
    let ghost all = texts(failures@);
    let ghost wanted = all.map_values(|f: Seq<char>| "  "@ + f);
    assert(texts(shown@) =~= wanted.take(0));
    let mut i: usize = 0;
    while i < failures.len()
        invariant
            i <= failures@.len(),
            all == texts(failures@),
            wanted == all.map_values(|f: Seq<char>| "  "@ + f),
            texts(shown@) == wanted.take(i as int),
        decreases failures@.len() - i,
    {
        let ghost had = texts(shown@);
        let line = cat2("  ", failures[i].as_str());
        let ghost view = line@;
        assert(all[i as int] == failures@[i as int]@);
        shown.push(line);
        assert(texts(shown@) =~= had.push(view));
        assert(texts(shown@) =~= wanted.take(i + 1));
        i += 1;
    }
    assert(wanted.take(i as int) =~= wanted);
    shown
}

/// Holds a step's outcome against what is expected of it.
pub fn check_expect_block(
    step_name: &str,
    expect: &ExpectBlock,
    capture: &StepCapture,
    actual_exit: i32,
) -> (r: Result<(), PlanError>)
    ensures
        outcome(r, expect_error(step_name@, *expect, *capture, actual_exit)),
{
    let failures = outcome_failures(expect, capture, actual_exit);
    assert(texts(failures@).len() == failures@.len());
    if failures.len() == 0 {
        return Ok(());
    }
    let shown = joined(&failures, "; ");
    Err(
        PlanError::new(
            cat4("step '", step_name, "' failed outcome assertions: ", shown.as_str()),
        ),
    )
}

/// A step meets what is expected of it exactly if it exits with the expected code, its
/// streams hold every text that they should, and none that they should not.
pub proof fn expectations_met_iff(
    step_name: Seq<char>,
    expect: ExpectBlock,
    capture: StepCapture,
    exit: i32,
)
    ensures
        expect_error(step_name, expect, capture, exit) is None <==> {
            &&& exit == match expect.exit {
                Some(code) => code,
                None => 0,
            }
            &&& expect.stdout matches Some(e) ==> stream_meets(capture.stdout@, e)
            &&& expect.stderr matches Some(e) ==> stream_meets(capture.stderr@, e)
        },
{
    if let Some(e) = expect.stdout {
        lemma_stream_meets(capture.stdout@, "stdout"@, e);
    }
    if let Some(e) = expect.stderr {
        lemma_stream_meets(capture.stderr@, "stderr"@, e);
    }
}

/// Whether a stream holds every text that it should, and none that it should not.
pub open spec fn stream_meets(output: Seq<char>, expect: StdioExpect) -> bool {
    &&& forall|k: int|
        0 <= k < expect.contains@.len() ==> find(output, #[trigger] expect.contains@[k]@) is Some
    &&& forall|k: int|
        0 <= k < expect.not_contains@.len() ==> find(
            output,
            #[trigger] expect.not_contains@[k]@,
        ) is None
}

proof fn lemma_stream_meets(output: Seq<char>, stream: Seq<char>, expect: StdioExpect)
    ensures
        stdio_failures(output, stream, expect).len() == 0 <==> stream_meets(output, expect),
{
    let wanted = texts(expect.contains@);
    let unwanted = texts(expect.not_contains@);
    lemma_absences(output, stream, wanted, wanted.len());
    lemma_presences(output, stream, unwanted, unwanted.len());
    assert(forall|k: int|
        0 <= k < expect.contains@.len() ==> wanted[k] == #[trigger] expect.contains@[k]@);
    assert(forall|k: int|
        0 <= k < expect.not_contains@.len() ==> unwanted[k]
            == #[trigger] expect.not_contains@[k]@);
    if stdio_failures(output, stream, expect).len() == 0 {
        assert forall|k: int| 0 <= k < expect.contains@.len() implies find(
            output,
            #[trigger] expect.contains@[k]@,
        ) is Some by {
            assert(find(output, wanted[k]) is Some);
        }
        assert forall|k: int| 0 <= k < expect.not_contains@.len() implies find(
            output,
            #[trigger] expect.not_contains@[k]@,
        ) is None by {
            assert(find(output, unwanted[k]) is None);
        }
    }
    if stream_meets(output, expect) {
        assert forall|k: int| 0 <= k < wanted.len() implies find(
            output,
            #[trigger] wanted[k],
        ) is Some by {
            assert(wanted[k] == expect.contains@[k]@);
        }
        assert forall|k: int| 0 <= k < unwanted.len() implies find(
            output,
            #[trigger] unwanted[k],
        ) is None by {
            assert(unwanted[k] == expect.not_contains@[k]@);
        }
    }
}

proof fn lemma_absences(output: Seq<char>, stream: Seq<char>, needles: Seq<Seq<char>>, n: nat)
    requires
        n <= needles.len(),
    ensures
        absences(output, stream, needles, n).len() == 0 <==> forall|k: int|
            0 <= k < n ==> find(output, #[trigger] needles[k]) is Some,
    decreases n,
{
    if n > 0 {
        lemma_absences(output, stream, needles, (n - 1) as nat);
        if find(output, needles[n - 1]) is None {
            assert(!(forall|k: int| 0 <= k < n ==> find(output, #[trigger] needles[k]) is Some));
        }
    }
}

proof fn lemma_presences(output: Seq<char>, stream: Seq<char>, needles: Seq<Seq<char>>, n: nat)
    requires
        n <= needles.len(),
    ensures
        presences(output, stream, needles, n).len() == 0 <==> forall|k: int|
            0 <= k < n ==> find(output, #[trigger] needles[k]) is None,
    decreases n,
{
    if n > 0 {
        lemma_presences(output, stream, needles, (n - 1) as nat);
        if find(output, needles[n - 1]) is Some {
            assert(!(forall|k: int| 0 <= k < n ==> find(output, #[trigger] needles[k]) is None));
        }
    }
}

} // verus!
