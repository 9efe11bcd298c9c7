//! How numbers are shown: as floats of 64 bits, in plain decimal notation.
//!
//! Such a float keeps fifteen digits, so a number that has no more is shown as it is. A longer
//! one is rounded as the reader of documents rounds it.

use vstd::prelude::*;
use vstd::string::*;

use crate::error::PlanError;
use crate::numbers::{
    all_digits, decimal_at, digits_value, is_decimal, is_digit, is_exponent, is_number,
    leading_digits, lemma_leading_digits, lowered, reads_as_number, skip_digits, to_lower,
    unsigned_part,
};
use crate::strings::{cat2, cat3, cat4, decimal_i64, same, slice, to_chars};
use crate::text::{decimal, decimals_read_back, number_of, signed_decimal};
use crate::value::{Node, NodeView};
use crate::yaml::{parse_yaml, yaml_document};

verus! {

// ---------------------------------------------------------------------------
// The digits of a number
// ---------------------------------------------------------------------------

/// How many zeros `d` has in front.
pub open spec fn leading_zeros(d: Seq<char>) -> int
    decreases d.len(),
{
    if d.len() == 0 || d[0] != '0' {
        0
    } else {
        1 + leading_zeros(d.skip(1))
    }
}

/// `d` without the zeros at its end.
pub open spec fn without_last_zeros(d: Seq<char>) -> Seq<char>
    decreases d.len(),
{
    if d.len() == 0 || d.last() != '0' {
        d
    } else {
        without_last_zeros(d.drop_last())
    }
}

/// The power of ten that an exponent stands for.
pub open spec fn exponent_value(s: Seq<char>) -> int {
    let size = digits_value(unsigned_part(s.skip(1))) as int;
    if s.skip(1)[0] == '-' {
        -size
    } else {
        size
    }
}

/// The digits of a number without a sign, and how many of them stand before the point once
/// the exponent has moved it.
pub open spec fn decimal_parts(t: Seq<char>) -> (Seq<char>, int) {
    let whole = leading_digits(t);
    let s1 = t.skip(whole);
    let pointed = s1.len() > 0 && s1[0] == '.';
    let fraction = if pointed {
        leading_digits(s1.skip(1))
    } else {
        0
    };
    let s2 = if pointed {
        s1.skip(1 + fraction)
    } else {
        s1
    };
    let digits = if pointed {
        t.take(whole) + s1.skip(1).take(fraction)
    } else {
        t.take(whole)
    };
    (
        digits,
        whole + if s2.len() == 0 {
            0
        } else {
            exponent_value(s2)
        },
    )
}

/// The digits that count: from the first to the last that is not zero.
pub open spec fn significant(d: Seq<char>) -> Seq<char> {
    without_last_zeros(d.skip(leading_zeros(d)))
}

// ---------------------------------------------------------------------------
// Plain notation
// ---------------------------------------------------------------------------

/// `n` zeros.
pub open spec fn zeros(n: int) -> Seq<char> {
    Seq::new(n as nat, |i: int| '0')
}

/// The number whose significant digits are `digits`, of which `point` stand before the point.
/// Where more stand there than in any float of 64 bits, it is infinite; where more zeros follow
/// the point than in any such float, it is zero.
pub open spec fn plain(digits: Seq<char>, point: int) -> Seq<char> {
    if digits.len() == 0 {
        "0"@
    } else if point > 309 {
        "inf"@
    } else if point < -323 {
        "0"@
    } else if point <= 0 {
        "0."@ + zeros(-point) + digits
    } else if point >= digits.len() {
        digits + zeros(point - digits.len())
    } else {
        digits.take(point) + "."@ + digits.skip(point)
    }
}

/// How a number without a sign is written plainly, to its last digit.
pub open spec fn plain_decimal(t: Seq<char>) -> Seq<char> {
    let parts = decimal_parts(t);
    plain(significant(parts.0), parts.1 - leading_zeros(parts.0))
}

/// Whether a float of 64 bits may differ from a number: it keeps any fifteen digits, but not
/// any sixteen, and fewer at the ends of its range.
pub open spec fn may_round(digits: Seq<char>, point: int) -> bool {
    -323 <= point <= 309 && (digits.len() > 15 || digits.len() > 0 && (point <= -307 || point
        == 309))
}

/// What reading a document gave, in the terms of the model.
pub open spec fn node_read(r: Result<Node, PlanError>) -> Result<NodeView, Seq<char>> {
    match r {
        Ok(value) => Ok(value@),
        Err(e) => Err(e@),
    }
}

/// A number in the notation in which a document holds a float.
pub open spec fn float_literal(digits: Seq<char>, point: int) -> Seq<char> {
    "0."@ + digits + "e"@ + signed_decimal(point)
}

/// How a float is shown that was read from a document. A literal that no float of 64 bits
/// reaches is read as no number.
pub open spec fn float_shown(read: Result<NodeView, Seq<char>>) -> Seq<char> {
    match read {
        Ok(NodeView::Number(n)) => if is_decimal(n) {
            plain_decimal(n)
        } else {
            "inf"@
        },
        _ => "inf"@,
    }
}

/// How a number without a sign is shown: as the float of 64 bits next to it.
pub open spec fn shown_decimal(t: Seq<char>) -> Seq<char> {
    let parts = decimal_parts(t);
    let digits = significant(parts.0);
    let point = parts.1 - leading_zeros(parts.0);
    if may_round(digits, point) {
        float_shown(yaml_document(float_literal(digits, point)))
    } else {
        plain(digits, point)
    }
}

/// The minus sign of a number, if it has one.
pub open spec fn minus(s: Seq<char>) -> Seq<char> {
    if s.len() > 0 && s[0] == '-' {
        "-"@
    } else {
        seq![]
    }
}

/// How a number is shown: as the float of 64 bits next to it, in plain decimal notation, without
/// an exponent, without a plus sign and without zeros that say nothing, so that `7.0` and `70e-1`
/// are both `7`. A number that exceeds these floats is `inf`. Text that is no number is shown
/// as it is.
pub open spec fn number_text(s: Seq<char>) -> Seq<char> {
    let t = unsigned_part(s);
    let word = lowered(t);
    if word == "nan"@ {
        "NaN"@
    } else if word == "inf"@ || word == "infinity"@ {
        minus(s) + "inf"@
    } else if is_decimal(t) {
        minus(s) + shown_decimal(t)
    } else {
        s
    }
}

// ---------------------------------------------------------------------------
// Showing a number
// ---------------------------------------------------------------------------

/// The power of ten that the exponent in `v` from `from` on stands for, kept within bounds:
/// what is returned is exact below `10^30`.
fn exponent_from(v: &Vec<char>, from: usize) -> (r: i128)
    requires
        from <= v@.len(),
        is_exponent(v@.skip(from as int)),
    ensures
        -100_000_000_000_000_000_000_000_000_000_000 <= r
            <= 100_000_000_000_000_000_000_000_000_000_000,
        ({
            let exact = exponent_value(v@.skip(from as int));
            ||| r == exact
            ||| r >= 1_000_000_000_000_000_000_000_000_000_000 && exact >= r
            ||| r <= -1_000_000_000_000_000_000_000_000_000_000 && exact <= r
        }),
{
    let ghost s = v@.skip(from as int);
    let len: usize = v.len();
    assert(s[0] == v@[from as int]);
    assert(s.skip(1) =~= v@.skip(from + 1));
    assert(s.skip(1)[0] == v@[from + 1]);
    assert(from + 1 < len);
    let start: usize = if v[from + 1] == '+' || v[from + 1] == '-' {
        from + 2
    } else {
        from + 1
    };
    let ghost digits = unsigned_part(s.skip(1));
    assert(digits =~= v@.skip(start as int));
    let mut size: i128 = 0;
    let mut i: usize = start;
    assert(digits.take(0) =~= seq![]);
    while i < len
        invariant
            start <= i <= len,
            len == v@.len(),
            digits == v@.skip(start as int),
            all_digits(digits),
            0 <= size <= 100_000_000_000_000_000_000_000_000_000_000,
            size <= digits_value(digits.take(i - start)),
            size == digits_value(digits.take(i - start)) || size
                >= 1_000_000_000_000_000_000_000_000_000_000,
        decreases v@.len() - i,
    {
        assert(digits[i - start] == v@[i as int]);
        assert(digits.take(i - start + 1).drop_last() =~= digits.take(i - start));
        assert(digits.take(i - start + 1).last() == v@[i as int]);
        if size < 1_000_000_000_000_000_000_000_000_000_000 {
            let digit: u32 = v[i] as u32 - 48;
            size = size * 10 + digit as i128;
        }
        i += 1;
    }
    assert(digits.take(i - start) =~= digits);
    if v[from + 1] == '-' {
        -size
    } else {
        size
    }
}

/// How many zeros `d` has in front.
fn count_leading_zeros(d: &Vec<char>) -> (r: usize)
    ensures
        r == leading_zeros(d@),
        r <= d@.len(),
{
    let mut i: usize = 0;
    assert(d@.skip(0) =~= d@);
    while i < d.len() && d[i] == '0'
        invariant
            i <= d@.len(),
            leading_zeros(d@) == i + leading_zeros(d@.skip(i as int)),
        decreases d@.len() - i,
    {
        assert(d@.skip(i as int)[0] == d@[i as int]);
        assert(d@.skip(i as int).skip(1) =~= d@.skip(i + 1));
        i += 1;
    }
    if i < d.len() {
        assert(d@.skip(i as int)[0] == d@[i as int]);
    }
    i
}

/// The end of `d` without the zeros there, from `from` on.
fn last_zeros_from(d: &Vec<char>, from: usize) -> (r: usize)
    requires
        from <= d@.len(),
    ensures
        from <= r <= d@.len(),
        d@.subrange(from as int, r as int) == without_last_zeros(d@.skip(from as int)),
{
    let mut end: usize = d.len();
    assert(d@.subrange(from as int, end as int) =~= d@.skip(from as int));
    while end > from && d[end - 1] == '0'
        invariant
            from <= end <= d@.len(),
            without_last_zeros(d@.skip(from as int)) == without_last_zeros(
                d@.subrange(from as int, end as int),
            ),
        decreases end,
    {
        let ghost part = d@.subrange(from as int, end as int);
        assert(part.last() == d@[end - 1]);
        assert(part.drop_last() =~= d@.subrange(from as int, end - 1));
        end -= 1;
    }
    let ghost part = d@.subrange(from as int, end as int);
    if end > from {
        assert(part.last() == d@[end - 1]);
    }
    end
}

/// `n` zeros.
fn zero_text(n: usize) -> (r: String)
    ensures
        r@ == zeros(n as int),
{
    let mut r = String::new();
    let mut i: usize = 0;
    assert(r@ =~= zeros(0));
    while i < n
        invariant
            i <= n,
            r@ == zeros(i as int),
        decreases n - i,
    {
        r.push('0');
        assert(r@ =~= zeros(i + 1));
        i += 1;
    }
    r
}

/// The number whose significant digits are `digits`, of which `point` stand before the point.
fn plain_text(digits: &str, point: i128) -> (r: String)
    ensures
        r@ == plain(digits@, point as int),
{
    let v = to_chars(digits);
    if v.len() == 0 {
        return "0".to_owned();
    }
    if point > 309 {
        return "inf".to_owned();
    }
    if point < -323 {
        return "0".to_owned();
    }
    if point <= 0 {
        let gap: usize = (-point) as usize;
        let filled = zero_text(gap);
        cat3("0.", filled.as_str(), digits)
    } else {
        let before: usize = point as usize;
        if before >= v.len() {
            let filled = zero_text(before - v.len());
            cat2(digits, filled.as_str())
        } else {
            let head = slice(&v, 0, before);
            let tail = slice(&v, before, v.len());
            assert(head@ =~= digits@.take(point as int));
            assert(tail@ =~= digits@.skip(point as int));
            cat3(head.as_str(), ".", tail.as_str())
        }
    }
}

/// The significant digits of the number without a sign in `v` from `start` on, and how many of
/// them stand before the point: exactly, or beyond the same bound.
fn digits_and_point(v: &Vec<char>, start: usize) -> (r: (String, i128))
    requires
        start <= v@.len(),
        is_decimal(v@.skip(start as int)),
    ensures
        ({
            let parts = decimal_parts(v@.skip(start as int));
            let exact = parts.1 - leading_zeros(parts.0);
            &&& r.0@ == significant(parts.0)
            &&& r.1 == exact || r.1 > 309 && exact > 309 || r.1 < -323 && exact < -323
        }),
{
    let ghost t = v@.skip(start as int);
    let whole = skip_digits(v, start);
    let ghost s1 = t.skip(whole - start);
    assert(s1 =~= v@.skip(whole as int));
    let head = slice(v, start, whole);
    assert(head@ =~= t.take(whole - start));
    let pointed = whole < v.len() && v[whole] == '.';
    if whole < v.len() {
        assert(s1[0] == v@[whole as int]);
    }
    let (written, end): (String, usize) = if pointed {
        assert(s1.skip(1) =~= v@.skip(whole + 1));
        let end = skip_digits(v, whole + 1);
        let tail = slice(v, whole + 1, end);
        assert(tail@ =~= s1.skip(1).take(end - whole - 1));
        assert(s1.skip(1 + (end - whole - 1)) =~= v@.skip(end as int));
        (cat2(head.as_str(), tail.as_str()), end)
    } else {
        (head, whole)
    };
    let power: i128 = if end == v.len() {
        0
    } else {
        exponent_from(v, end)
    };
    let digits = to_chars(written.as_str());
    let from = count_leading_zeros(&digits);
    let to = last_zeros_from(&digits, from);
    let shown = slice(&digits, from, to);
    let ghost parts = decimal_parts(t);
    assert(digits@ == parts.0);
    assert(shown@ == significant(parts.0));
    let point: i128 = (whole - start) as i128 + power - from as i128;
    (shown, point)
}

/// How a float is shown that was read from a document.
pub fn show_float(read: &Result<Node, PlanError>) -> (r: String)
    ensures
        r@ == float_shown(node_read(*read)),
{
    if let Ok(Node::Number(n)) = read {
        let v = to_chars(n.as_str());
        assert(v@.skip(0) =~= v@);
        if decimal_at(&v, 0) {
            let (digits, point) = digits_and_point(&v, 0);
            return plain_text(digits.as_str(), point);
        }
    }
    "inf".to_owned()
}

/// How the number without a sign in `v` from `start` on is shown.
fn show_decimal(v: &Vec<char>, start: usize) -> (r: String)
    requires
        start <= v@.len(),
        is_decimal(v@.skip(start as int)),
    ensures
        r@ == shown_decimal(v@.skip(start as int)),
{
    let (digits, point) = digits_and_point(v, start);
    let len = to_chars(digits.as_str()).len();
    if -323 <= point && point <= 309 && (len > 15 || len > 0 && (point <= -307 || point == 309)) {
        let power = decimal_i64(point as i64);
        let literal = cat4("0.", digits.as_str(), "e", power.as_str());
        show_float(&parse_yaml(literal.as_str()))
    } else {
        plain_text(digits.as_str(), point)
    }
}

/// How a number is shown: as the float of 64 bits next to it, in plain decimal notation.
pub fn show_number(s: &str) -> (r: String)
    ensures
        r@ == number_text(s@),
{
    if !reads_as_number(s) {
        return s.to_owned();
    }
    let v = to_chars(s);
    let negative = v.len() > 0 && v[0] == '-';
    let start: usize = if v.len() > 0 && (v[0] == '+' || v[0] == '-') {
        1
    } else {
        0
    };
    let ghost t = unsigned_part(s@);
    assert(t =~= v@.skip(start as int));
    let body = slice(&v, start, v.len());
    assert(body@ =~= t);
    let word = to_lower(body.as_str());
    if same(word.as_str(), "nan") {
        return "NaN".to_owned();
    }
    let shown = if same(word.as_str(), "inf") || same(word.as_str(), "infinity") {
        "inf".to_owned()
    } else {
        show_decimal(&v, start)
    };
    if negative {
        cat2("-", shown.as_str())
    } else {
        assert(minus(s@) + shown@ =~= shown@);
        shown
    }
}

// ---------------------------------------------------------------------------
// What is shown reads back
// ---------------------------------------------------------------------------

proof fn lemma_leading_zeros(d: Seq<char>)
    ensures
        0 <= leading_zeros(d) <= d.len(),
        leading_zeros(d) < d.len() ==> d[leading_zeros(d)] != '0',
    decreases d.len(),
{
    if d.len() > 0 && d[0] == '0' {
        lemma_leading_zeros(d.skip(1));
    }
}

proof fn lemma_without_last_zeros(d: Seq<char>)
    ensures
        without_last_zeros(d).len() <= d.len(),
        without_last_zeros(d) == d.take(without_last_zeros(d).len() as int),
        without_last_zeros(d).len() > 0 ==> without_last_zeros(d).last() != '0',
        d.len() > 0 && d[0] != '0' ==> without_last_zeros(d).len() > 0,
    decreases d.len(),
{
    if d.len() > 0 && d.last() == '0' {
        lemma_without_last_zeros(d.drop_last());
    } else {
        assert(d.take(d.len() as int) =~= d);
    }
}

/// Whether `d` is a list of significant digits: digits that neither start nor end in a zero.
pub open spec fn is_significant(d: Seq<char>) -> bool {
    all_digits(d) && (d.len() > 0 ==> d[0] != '0' && d.last() != '0')
}

proof fn lemma_significant(d: Seq<char>)
    requires
        all_digits(d),
    ensures
        is_significant(significant(d)),
{
    let lead = leading_zeros(d);
    lemma_leading_zeros(d);
    lemma_without_last_zeros(d.skip(lead));
    let kept = significant(d);
    assert forall|i: int| 0 <= i < kept.len() implies is_digit(#[trigger] kept[i]) by {
        assert(kept[i] == d[lead + i]);
    }
    if kept.len() > 0 {
        assert(kept[0] == d[lead]);
    }
}

proof fn lemma_zeros_in_front(n: int, d: Seq<char>)
    requires
        n >= 0,
        d.len() > 0,
        d[0] != '0',
    ensures
        leading_zeros(zeros(n) + d) == n,
        (zeros(n) + d).skip(n) == d,
    decreases n,
{
    let all = zeros(n) + d;
    assert(all.skip(n) =~= d);
    if n > 0 {
        lemma_zeros_in_front(n - 1, d);
        assert(all.skip(1) =~= zeros(n - 1) + d);
    } else {
        assert(all =~= d);
    }
}

proof fn lemma_zeros_at_the_end(d: Seq<char>, n: int)
    requires
        n >= 0,
        d.len() > 0,
        d.last() != '0',
    ensures
        without_last_zeros(d + zeros(n)) == d,
    decreases n,
{
    let all = d + zeros(n);
    if n > 0 {
        lemma_zeros_at_the_end(d, n - 1);
        assert(all.drop_last() =~= d + zeros(n - 1));
        assert(all.last() == '0');
    } else {
        assert(all =~= d);
    }
}

/// Digits and what follows them, which is no digit.
proof fn lemma_digits_in_front(a: Seq<char>, b: Seq<char>)
    requires
        all_digits(a),
        b.len() == 0 || !is_digit(b[0]),
    ensures
        leading_digits(a + b) == a.len(),
        (a + b).take(a.len() as int) == a,
        (a + b).skip(a.len() as int) == b,
    decreases a.len(),
{
    let all = a + b;
    assert(all.take(a.len() as int) =~= a);
    assert(all.skip(a.len() as int) =~= b);
    if a.len() > 0 {
        let rest = a.skip(1);
        assert forall|i: int| 0 <= i < rest.len() implies is_digit(#[trigger] rest[i]) by {
            assert(rest[i] == a[i + 1]);
        }
        lemma_digits_in_front(rest, b);
        assert(all.skip(1) =~= rest + b);
        assert(all[0] == a[0]);
    } else {
        assert(all =~= b);
    }
}

/// Digits, a point and digits are read as these digits.
proof fn lemma_pointed(a: Seq<char>, b: Seq<char>)
    requires
        all_digits(a),
        all_digits(b),
        a.len() + b.len() > 0,
    ensures
        is_decimal(a + "."@ + b),
        decimal_parts(a + "."@ + b) == (a + b, a.len() as int),
{
    reveal_strlit(".");
    let t = a + "."@ + b;
    let s1 = "."@ + b;
    assert(t =~= a + s1);
    assert(s1[0] == '.');
    lemma_digits_in_front(a, s1);
    assert(s1.skip(1) =~= b + Seq::<char>::empty());
    lemma_digits_in_front(b, Seq::<char>::empty());
    assert(s1.skip(1 + b.len() as int).len() == 0);
    assert(s1.skip(1) =~= b);
}

/// Digits alone are read as these digits.
proof fn lemma_whole(a: Seq<char>)
    requires
        all_digits(a),
        a.len() > 0,
    ensures
        is_decimal(a),
        decimal_parts(a) == (a, a.len() as int),
{
    let none = Seq::<char>::empty();
    assert(a + none =~= a);
    lemma_digits_in_front(a, none);
}

proof fn lemma_plain_reads_back(d: Seq<char>, point: int)
    requires
        is_significant(d),
        !may_round(d, point),
    ensures
        plain(d, point).len() > 0,
        plain(d, point) == "inf"@ || is_digit(plain(d, point)[0]) && is_decimal(plain(d, point))
            && shown_decimal(plain(d, point)) == plain(d, point),
{
    reveal_strlit("0");
    reveal_strlit("0.");
    reveal_strlit(".");
    reveal_strlit("inf");
    let shown = plain(d, point);
    if d.len() == 0 || point < -323 {
        assert(all_digits("0"@));
        lemma_whole("0"@);
        assert("0"@.skip(1) =~= seq![]);
        assert(leading_zeros("0"@.skip(1)) == 0);
        assert(leading_zeros("0"@) == 1);
    } else if point > 309 {
    } else if point <= 0 {
        let rest = zeros(-point) + d;
        let all = "0"@ + rest;
        assert(all_digits(rest));
        assert(shown =~= "0"@ + "."@ + rest);
        lemma_pointed("0"@, rest);
        assert(all =~= zeros(1 - point) + d);
        lemma_zeros_in_front(1 - point, d);
        assert(without_last_zeros(d) == d);
    } else if point >= d.len() {
        let gap = point - d.len();
        assert(all_digits(shown));
        lemma_whole(shown);
        lemma_zeros_in_front(0, shown);
        assert(zeros(0) + shown =~= shown);
        assert(shown.skip(0) =~= shown);
        lemma_zeros_at_the_end(d, gap);
    } else {
        let a = d.take(point);
        let b = d.skip(point);
        assert forall|i: int| 0 <= i < b.len() implies is_digit(#[trigger] b[i]) by {
            assert(b[i] == d[point + i]);
        }
        lemma_pointed(a, b);
        assert(a + b =~= d);
        assert(leading_zeros(d) == 0);
        assert(d.skip(0) =~= d);
        assert(without_last_zeros(d) == d);
    }
}

proof fn lemma_parts_are_digits(t: Seq<char>)
    ensures
        all_digits(decimal_parts(t).0),
{
    let whole = leading_digits(t);
    lemma_front_digits(t);
    lemma_leading_digits(t);
    let s1 = t.skip(whole);
    if s1.len() > 0 && s1[0] == '.' {
        lemma_front_digits(s1.skip(1));
        lemma_leading_digits(s1.skip(1));
    }
}

proof fn lemma_front_digits(s: Seq<char>)
    ensures
        forall|i: int| 0 <= i < leading_digits(s) ==> is_digit(#[trigger] s[i]),
    decreases s.len(),
{
    if s.len() > 0 && is_digit(s[0]) {
        lemma_front_digits(s.skip(1));
        lemma_leading_digits(s.skip(1));
        assert forall|i: int| 0 <= i < leading_digits(s) implies is_digit(#[trigger] s[i]) by {
            if i > 0 {
                assert(s[i] == s.skip(1)[i - 1]);
            }
        }
    }
}

proof fn lemma_signed(sign: Seq<char>, t: Seq<char>)
    requires
        sign == "-"@ || sign == Seq::<char>::empty(),
        t.len() > 0,
        t[0] != '-',
        t[0] != '+',
    ensures
        unsigned_part(sign + t) == t,
        minus(sign + t) == sign,
{
    reveal_strlit("-");
    if sign.len() > 0 {
        assert((sign + t).skip(1) =~= t);
    } else {
        assert(sign + t =~= t);
    }
}

/// Whether a text is no number that a float of 64 bits may round.
pub open spec fn is_exact(s: Seq<char>) -> bool {
    let parts = decimal_parts(unsigned_part(s));
    !may_round(significant(parts.0), parts.1 - leading_zeros(parts.0))
}

/// A number that is shown without rounding reads back as the number it was: showing it again
/// changes nothing. An output of one step can so be handed on by another, as often as need be.
pub proof fn shown_numbers_stay(s: Seq<char>)
    requires
        is_exact(s),
    ensures
        number_text(number_text(s)) == number_text(s),
        is_number(s) ==> is_number(number_text(s)),
{
    reveal_strlit("nan");
    reveal_strlit("NaN");
    reveal_strlit("inf");
    reveal_strlit("infinity");
    let t = unsigned_part(s);
    let word = lowered(t);
    assert("inf"@[0] != "nan"@[0]);
    if word == "nan"@ {
        assert(lowered("NaN"@) =~= "nan"@);
    } else if word == "inf"@ || word == "infinity"@ {
        lemma_signed(minus(s), "inf"@);
        assert(lowered("inf"@) =~= "inf"@);
    } else if is_decimal(t) {
        let parts = decimal_parts(t);
        let shown = shown_decimal(t);
        lemma_parts_are_digits(t);
        lemma_significant(parts.0);
        lemma_plain_reads_back(significant(parts.0), parts.1 - leading_zeros(parts.0));
        lemma_signed(minus(s), shown);
        if shown == "inf"@ {
            assert(lowered("inf"@) =~= "inf"@);
        } else {
            assert(lowered(shown)[0] == shown[0]);
            assert(lowered(shown) != "nan"@);
            assert(lowered(shown) != "inf"@ && lowered(shown) != "infinity"@);
        }
    }
}

proof fn lemma_shown(t: Seq<char>, d: Seq<char>, point: int)
    requires
        t.len() > 0,
        is_digit(t[0]),
        is_decimal(t),
        significant(decimal_parts(t).0) == d,
        decimal_parts(t).1 - leading_zeros(decimal_parts(t).0) == point,
        !may_round(d, point),
    ensures
        number_text(t) == plain(d, point),
{
    reveal_strlit("nan");
    reveal_strlit("inf");
    reveal_strlit("infinity");
    assert(lowered(t)[0] == t[0]);
    assert(unsigned_part(t) == t);
    assert(minus(t) + plain(d, point) =~= plain(d, point));
}

proof fn lemma_spread(m: int, d: Seq<char>, n: int)
    requires
        is_significant(d),
        d.len() > 0,
        m >= 0,
        n >= 0,
    ensures
        all_digits(zeros(m) + d + zeros(n)),
        leading_zeros(zeros(m) + d + zeros(n)) == m,
        significant(zeros(m) + d + zeros(n)) == d,
{
    let all = zeros(m) + d + zeros(n);
    let tail = d + zeros(n);
    assert(all =~= zeros(m) + tail);
    lemma_zeros_in_front(m, tail);
    lemma_zeros_at_the_end(d, n);
    assert forall|i: int| 0 <= i < all.len() implies is_digit(#[trigger] all[i]) by {
        if m <= i < m + d.len() {
            assert(all[i] == d[i - m]);
        }
    }
}

/// A whole number is shown with the digits that it has, without the zeros in front; zeros behind
/// a point are not shown.
pub proof fn whole_numbers_keep_their_value(m: int, d: Seq<char>, n: int, f: int)
    requires
        is_significant(d),
        0 < d.len() <= 15,
        m >= 0,
        n >= 0,
        f >= 0,
        d.len() + n <= 308,
    ensures
        number_text(zeros(m) + d + zeros(n)) == d + zeros(n),
        number_text(zeros(m) + d + zeros(n) + "."@ + zeros(f)) == d + zeros(n),
{
    let all = zeros(m) + d + zeros(n);
    lemma_spread(m, d, n);
    assert(is_digit(all[0]));
    lemma_whole(all);
    let point = (d.len() + n) as int;
    lemma_shown(all, d, point);
    let pointed = all + "."@ + zeros(f);
    assert(all_digits(zeros(f)));
    lemma_pointed(all, zeros(f));
    assert(all + zeros(f) =~= zeros(m) + d + zeros(n + f));
    lemma_spread(m, d, n + f);
    assert(pointed[0] == all[0]);
    lemma_shown(pointed, d, point);
}

/// A fraction is shown with the digits that it has and with its point where it was; zeros at its
/// end are not shown.
pub proof fn fractions_keep_their_value(d: Seq<char>, p: int, m: int, n: int)
    requires
        is_significant(d),
        0 < d.len() <= 15,
        0 < p < d.len(),
        0 <= m <= 300,
        n >= 0,
    ensures
        number_text(d.take(p) + "."@ + (d.skip(p) + zeros(n))) == d.take(p) + "."@ + d.skip(p),
        number_text("0"@ + "."@ + (zeros(m) + d + zeros(n))) == "0."@ + zeros(m) + d,
{
    reveal_strlit("0");
    reveal_strlit(".");
    reveal_strlit("0.");
    let a = d.take(p);
    let b = d.skip(p) + zeros(n);
    assert forall|i: int| 0 <= i < b.len() implies is_digit(#[trigger] b[i]) by {
        if i < d.len() - p {
            assert(b[i] == d[p + i]);
        }
    }
    lemma_pointed(a, b);
    assert(a + b =~= zeros(0) + d + zeros(n));
    lemma_spread(0, d, n);
    let t = a + "."@ + b;
    assert(t[0] == d[0]);
    assert(is_digit(d[0]));
    lemma_shown(t, d, p);
    let rest = zeros(m) + d + zeros(n);
    lemma_spread(m, d, n);
    assert(all_digits("0"@));
    lemma_pointed("0"@, rest);
    assert("0"@ + rest =~= zeros(m + 1) + d + zeros(n));
    lemma_spread(m + 1, d, n);
    let u = "0"@ + "."@ + rest;
    assert(u[0] == '0');
    lemma_shown(u, d, -m);
}

proof fn lemma_with_exponent(d: Seq<char>, k: nat, down: bool)
    requires
        all_digits(d),
        d.len() > 0,
    ensures
        ({
            let t = if down {
                d + "e-"@ + decimal(k)
            } else {
                d + "e"@ + decimal(k)
            };
            &&& t[0] == d[0]
            &&& is_decimal(t)
            &&& decimal_parts(t) == (
                d,
                if down {
                    d.len() - k
                } else {
                    (d.len() + k) as int
                },
            )
        }),
{
    reveal_strlit("e");
    reveal_strlit("e-");
    let digits = decimal(k);
    decimals_read_back(k);
    lemma_value_of_digits(digits);
    assert(is_digit(digits[0]));
    assert forall|i: int| 0 <= i < digits.len() implies is_digit(#[trigger] digits[i]) by {}
    let power = if down {
        "e-"@ + digits
    } else {
        "e"@ + digits
    };
    let t = if down {
        d + "e-"@ + digits
    } else {
        d + "e"@ + digits
    };
    assert(t =~= d + power);
    assert(power[0] == 'e');
    lemma_digits_in_front(d, power);
    if down {
        assert(power.skip(1) =~= seq!['-'] + digits);
        assert(power.skip(1).skip(1) =~= digits);
        assert(unsigned_part(power.skip(1)) == digits);
    } else {
        assert(power.skip(1) =~= digits);
        assert(unsigned_part(power.skip(1)) == digits);
    }
    assert(is_exponent(power));
}

/// The value of digits is the number that they stand for.
pub proof fn lemma_value_of_digits(s: Seq<char>)
    ensures
        digits_value(s) == number_of(s),
    decreases s.len(),
{
    if s.len() > 0 {
        lemma_value_of_digits(s.drop_last());
    }
}

/// An exponent moves the point: to the right over zeros that are put in, or to the left.
pub proof fn exponents_move_the_point(d: Seq<char>, k: nat)
    requires
        is_significant(d),
        0 < d.len() <= 15,
    ensures
        d.len() + k <= 308 ==> number_text(d + "e"@ + decimal(k)) == d + zeros(k as int),
        0 < k < d.len() ==> number_text(d + "e-"@ + decimal(k)) == d.take(d.len() - k) + "."@
            + d.skip(d.len() - k),
        d.len() <= k <= 300 ==> number_text(d + "e-"@ + decimal(k)) == "0."@ + zeros(k - d.len())
            + d,
{
    lemma_spread(0, d, 0);
    assert(zeros(0) + d + zeros(0) =~= d);
    assert(is_digit(d[0]));
    lemma_with_exponent(d, k, false);
    lemma_with_exponent(d, k, true);
    if d.len() + k <= 308 {
        lemma_shown(d + "e"@ + decimal(k), d, (d.len() + k) as int);
    }
    if k <= 300 {
        lemma_shown(d + "e-"@ + decimal(k), d, d.len() - k);
    }
}

/// A minus sign is kept, and a plus sign is not shown.
pub proof fn signs_are_kept(t: Seq<char>)
    requires
        t.len() > 0,
        is_digit(t[0]),
        is_decimal(t),
    ensures
        number_text(seq!['-'] + t) == seq!['-'] + number_text(t),
        number_text(seq!['+'] + t) == number_text(t),
{
    reveal_strlit("-");
    reveal_strlit("nan");
    reveal_strlit("inf");
    reveal_strlit("infinity");
    assert(lowered(t)[0] == t[0]);
    assert((seq!['-'] + t).skip(1) =~= t);
    assert((seq!['+'] + t).skip(1) =~= t);
    assert("-"@ =~= seq!['-']);
    let shown = shown_decimal(t);
    assert(Seq::<char>::empty() + shown =~= shown);
}

} // verus!
