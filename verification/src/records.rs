//! The records that a log file keeps, one to a line.

use vstd::prelude::*;
use vstd::string::*;
use vstd::utf8::*;

use crate::error::PlanError;
use crate::logging::StepOutputStream;
use crate::strings::cat7;

verus! {

/// The digit with that value in a hexadecimal number.
pub open spec fn hex_digit(n: int) -> char {
    if n < 10 {
        (n + '0' as int) as char
    } else {
        (n - 10 + 'a' as int) as char
    }
}

/// A character inside a JSON string.
pub open spec fn json_char(c: char) -> Seq<char> {
    if c == '"' {
        seq!['\\', '"']
    } else if c == '\\' {
        seq!['\\', '\\']
    } else if c == '\u{8}' {
        seq!['\\', 'b']
    } else if c == '\u{9}' {
        seq!['\\', 't']
    } else if c == '\u{a}' {
        seq!['\\', 'n']
    } else if c == '\u{c}' {
        seq!['\\', 'f']
    } else if c == '\u{d}' {
        seq!['\\', 'r']
    } else if (c as int) < 32 {
        seq!['\\', 'u', '0', '0', hex_digit(c as int / 16), hex_digit(c as int % 16)]
    } else {
        seq![c]
    }
}

/// The characters of a text inside a JSON string.
pub open spec fn json_chars(text: Seq<char>) -> Seq<char>
    decreases text.len(),
{
    if text.len() == 0 {
        seq![]
    } else {
        json_chars(text.drop_last()) + json_char(text.last())
    }
}

/// A text as a JSON string.
pub open spec fn json_string(text: Seq<char>) -> Seq<char> {
    seq!['"'] + json_chars(text) + seq!['"']
}

/// A text as a JSON string.
///
/// This calls `serde_json::to_string` for a `str`. The contract claims that it succeeds, and
/// that it puts the text in quotes with every quote, backslash and control character
/// escaped.
#[verifier::external_body]
fn json_quoted(text: &str) -> (r: Result<String, PlanError>)
    ensures
        match r {
            Ok(s) => s@ == json_string(text@),
            Err(_) => false,
        },
{
    match serde_json::to_string(text) {
        Ok(s) => Ok(s),
        Err(e) => Err(PlanError { message: e.to_string() }),
    }
}

/// What is left of bytes as a text when all that is not UTF-8 is replaced.
pub uninterp spec fn lossy_text(bytes: Seq<u8>) -> Seq<char>;

/// Bytes as a text, with all that is not UTF-8 replaced.
///
/// This calls `std::string::String::from_utf8_lossy`. The contract claims that the text is a
/// function of the bytes, and that bytes which are the UTF-8 form of a text give that text;
/// what replaces other bytes is left to the standard library.
#[verifier::external_body]
pub(crate) fn text_of_bytes(bytes: &[u8]) -> (r: String)
    ensures
        r@ == lossy_text(bytes@),
        forall|t: Seq<char>| encode_utf8(t) == bytes@ ==> r@ == t,
{
    String::from_utf8_lossy(bytes).into_owned()
}

/// The record of a line that a stream of a step brought at a time: an object with the time,
/// the stream and the line.
pub open spec fn record(ts: Seq<char>, stream: Seq<char>, line: Seq<char>) -> Seq<char> {
    "{\"ts\":"@ + json_string(ts) + ",\"stream\":"@ + json_string(stream) + ",\"line\":"@
        + json_string(line) + "}\n"@
}

/// The record of a line that a stream of a step brought at the time `ts`.
pub fn record_line(ts: &str, stream: StepOutputStream, line: &str) -> (r: Result<String, PlanError>)
    ensures
        r matches Ok(text) && text@ == record(ts@, stream.word(), line@),
{
    let ts = match json_quoted(ts) {
        Ok(s) => s,
        Err(e) => {
            return Err(e.within("failed to serialize step log record"));
        },
    };
    let stream = match json_quoted(stream.as_str()) {
        Ok(s) => s,
        Err(e) => {
            return Err(e.within("failed to serialize step log record"));
        },
    };
    let line = match json_quoted(line) {
        Ok(s) => s,
        Err(e) => {
            return Err(e.within("failed to serialize step log record"));
        },
    };
    Ok(
        cat7(
            "{\"ts\":",
            ts.as_str(),
            ",\"stream\":",
            stream.as_str(),
            ",\"line\":",
            line.as_str(),
            "}\n",
        ),
    )
}

/// The record of the bytes of a line that a stream of a step brought at the time `ts`.
pub fn log_line(ts: &str, stream: StepOutputStream, line: &[u8]) -> (r: Result<String, PlanError>)
    ensures
        r matches Ok(text) && text@ == record(ts@, stream.word(), lossy_text(line@)),
{
    let text = text_of_bytes(line);
    record_line(ts, stream, text.as_str())
}

proof fn lemma_char_without_newline(c: char)
    ensures
        !json_char(c).contains('\n'),
{
    let all = json_char(c);
    assert forall|k: int| 0 <= k < all.len() implies all[k] != '\n' by {
        if (c as int) < 32 {
            assert(0 <= c as int / 16 < 16);
            assert(0 <= c as int % 16 < 16);
        }
    }
}

proof fn lemma_no_newline(text: Seq<char>)
    ensures
        !json_chars(text).contains('\n'),
    decreases text.len(),
{
    if text.len() > 0 {
        let front = json_chars(text.drop_last());
        let last = json_char(text.last());
        lemma_no_newline(text.drop_last());
        lemma_char_without_newline(text.last());
        assert forall|k: int| 0 <= k < (front + last).len() implies (front + last)[k] != '\n' by {
            if k < front.len() {
                assert(front.contains(front[k]));
            } else {
                assert(last.contains(last[k - front.len()]));
            }
        }
    }
}

/// A record is one line, whatever it holds: its only line feed ends it.
pub proof fn a_record_is_one_line(ts: Seq<char>, stream: Seq<char>, line: Seq<char>)
    ensures
        ({
            let text = record(ts, stream, line);
            forall|k: int| 0 <= k < text.len() ==> (text[k] == '\n' <==> k == text.len() - 1)
        }),
{
    reveal_strlit("{\"ts\":");
    reveal_strlit(",\"stream\":");
    reveal_strlit(",\"line\":");
    reveal_strlit("}\n");
    lemma_no_newline(ts);
    lemma_no_newline(stream);
    lemma_no_newline(line);
    lemma_plain_quoted(ts);
    lemma_plain_quoted(stream);
    lemma_plain_quoted(line);
    let a = "{\"ts\":"@;
    let b = a + json_string(ts);
    let c = b + ",\"stream\":"@;
    let d = c + json_string(stream);
    let e = d + ",\"line\":"@;
    let f = e + json_string(line);
    lemma_plain_parts(a, json_string(ts));
    lemma_plain_parts(b, ",\"stream\":"@);
    lemma_plain_parts(c, json_string(stream));
    lemma_plain_parts(d, ",\"line\":"@);
    lemma_plain_parts(e, json_string(line));
    let text = record(ts, stream, line);
    assert(text == f + "}\n"@);
    assert forall|k: int| 0 <= k < text.len() implies (text[k] == '\n' <==> k == text.len()
        - 1) by {
        if k < f.len() {
            assert(f.contains(f[k]));
        }
    }
}

proof fn lemma_plain_quoted(text: Seq<char>)
    requires
        !json_chars(text).contains('\n'),
    ensures
        !json_string(text).contains('\n'),
{
    let all = json_string(text);
    assert forall|k: int| 0 <= k < all.len() implies all[k] != '\n' by {
        if 0 < k < all.len() - 1 {
            assert(json_chars(text).contains(json_chars(text)[k - 1]));
        }
    }
}

proof fn lemma_plain_parts(a: Seq<char>, b: Seq<char>)
    requires
        !a.contains('\n'),
        !b.contains('\n'),
    ensures
        !(a + b).contains('\n'),
{
    assert forall|k: int| 0 <= k < (a + b).len() implies (a + b)[k] != '\n' by {
        if k < a.len() {
            assert(a.contains(a[k]));
        } else {
            assert(b.contains(b[k - a.len()]));
        }
    }
}

} // verus!
