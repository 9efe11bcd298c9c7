//! Reading of numbers.

use vstd::prelude::*;
use vstd::string::*;

use crate::strings::{same, slice, to_chars};

verus! {

/// Whether a character is a decimal digit.
pub open spec fn is_digit(c: char) -> bool {
    '0' <= c <= '9'
}

/// The number that a decimal digit stands for.
pub open spec fn digit_value(c: char) -> nat {
    (c as u32 - '0' as u32) as nat
}

/// Whether `s` holds nothing but decimal digits.
pub open spec fn all_digits(s: Seq<char>) -> bool {
    forall|i: int| 0 <= i < s.len() ==> is_digit(#[trigger] s[i])
}

/// The number that decimal digits stand for.
pub open spec fn digits_value(s: Seq<char>) -> nat
    decreases s.len(),
{
    if s.len() == 0 {
        0
    } else {
        digits_value(s.drop_last()) * 10 + digit_value(s.last())
    }
}

/// `s` without a sign in front.
pub open spec fn unsigned_part(s: Seq<char>) -> Seq<char> {
    if s.len() > 0 && (s[0] == '+' || s[0] == '-') {
        s.skip(1)
    } else {
        s
    }
}

/// The number that `s` writes: an optional sign and at least one digit, within
/// the range of a 64-bit integer.
pub open spec fn integer(s: Seq<char>) -> Option<int> {
    let digits = unsigned_part(s);
    if digits.len() == 0 || !all_digits(digits) {
        None
    } else {
        let size = digits_value(digits) as int;
        let n = if s[0] == '-' {
            -size
        } else {
            size
        };
        if i64::MIN <= n <= i64::MAX {
            Some(n)
        } else {
            None
        }
    }
}

proof fn lemma_digits_value_grows(s: Seq<char>, n: int)
    requires
        0 <= n <= s.len(),
    ensures
        digits_value(s.take(n)) <= digits_value(s),
    decreases s.len() - n,
{
    if n < s.len() {
        lemma_digits_value_grows(s, n + 1);
        assert(s.take(n + 1).drop_last() =~= s.take(n));
    } else {
        assert(s.take(n) =~= s);
    }
}

/// The number that a decimal digit stands for, if the character is one.
fn digit_of(c: char) -> (r: Option<u64>)
    ensures
        match r {
            Some(d) => is_digit(c) && d == digit_value(c) && d < 10,
            None => !is_digit(c),
        },
{
    if '0' <= c && c <= '9' {
        let d: u32 = c as u32 - 48;
        Some(d as u64)
    } else {
        None
    }
}

/// The number that `s` writes, if it fits a 64-bit integer.
pub fn parse_integer(s: &str) -> (r: Option<i64>)
    ensures
        match r {
            Some(n) => integer(s@) == Some(n as int),
            None => integer(s@) is None,
        },
{
    let v = to_chars(s);
    let start: usize = if v.len() > 0 && (v[0] == '+' || v[0] == '-') {
        1
    } else {
        0
    };
    let ghost digits = unsigned_part(s@);
    assert(digits =~= v@.skip(start as int));
    if start == v.len() {
        return None;
    }
    let mut size: u64 = 0;
    let mut i: usize = start;
    assert(digits.take(0) =~= seq![]);
    while i < v.len()
        invariant
            start <= i <= v@.len(),
            digits == v@.skip(start as int),
            digits == unsigned_part(s@),
            v@ == s@,
            size == digits_value(digits.take(i - start)),
            size <= 9223372036854775808,
            forall|j: int| 0 <= j < i - start ==> is_digit(#[trigger] digits[j]),
        decreases v@.len() - i,
    {
        assert(digits[i - start] == v@[i as int]);
        match digit_of(v[i]) {
            None => {
                return None;
            },
            Some(d) => {
                assert(digits.take(i - start + 1).drop_last() =~= digits.take(i - start));
                assert(digits.take(i - start + 1).last() == v@[i as int]);
                if size > 922337203685477580 || size * 10 + d > 9223372036854775808 {
                    proof {
                        lemma_digits_value_grows(digits, i - start + 1);
                    }
                    return None;
                }
                size = size * 10 + d;
            },
        }
        i += 1;
    }
    assert(digits.take(i - start) =~= digits);
    assert(all_digits(digits));
    if v[0] == '-' {
        if size == 9223372036854775808 {
            Some(i64::MIN)
        } else {
            Some(-(size as i64))
        }
    } else if size == 9223372036854775808 {
        None
    } else {
        Some(size as i64)
    }
}

// ---------------------------------------------------------------------------
// Decimal fractions
// ---------------------------------------------------------------------------

/// An ASCII letter in lower case; any other character as it is.
pub open spec fn lower(c: char) -> char {
    if 'A' <= c <= 'Z' {
        ((c as u32) + 32) as u32 as char
    } else {
        c
    }
}

/// `s` with its ASCII letters in lower case.
pub open spec fn lowered(s: Seq<char>) -> Seq<char> {
    s.map_values(|c: char| lower(c))
}

/// How many digits `s` has in front.
pub open spec fn leading_digits(s: Seq<char>) -> int
    decreases s.len(),
{
    if s.len() == 0 || !is_digit(s[0]) {
        0
    } else {
        1 + leading_digits(s.skip(1))
    }
}

/// Whether `s` is an exponent: `e`, an optional sign and at least one digit.
pub open spec fn is_exponent(s: Seq<char>) -> bool {
    &&& s.len() > 0
    &&& lower(s[0]) == 'e'
    &&& unsigned_part(s.skip(1)).len() > 0
    &&& all_digits(unsigned_part(s.skip(1)))
}

/// Whether `s` is a number without a sign: digits with an optional point among,
/// before or behind them, and an optional exponent.
pub open spec fn is_decimal(s: Seq<char>) -> bool {
    let whole = leading_digits(s);
    let s1 = s.skip(whole);
    let pointed = s1.len() > 0 && s1[0] == '.';
    let fraction = if pointed {
        leading_digits(s1.skip(1))
    } else {
        0
    };
    let s2 = if pointed {
        s1.skip(1 + fraction)
    } else {
        s1
    };
    whole + fraction > 0 && (s2.len() == 0 || is_exponent(s2))
}

/// Whether `s` writes a number: an optional sign, then a decimal number or one of
/// the words `inf`, `infinity` and `nan`, in any case.
pub open spec fn is_number(s: Seq<char>) -> bool {
    let t = unsigned_part(s);
    let word = lowered(t);
    word == "inf"@ || word == "infinity"@ || word == "nan"@ || is_decimal(t)
}

/// An ASCII letter in lower case; any other character as it is.
pub fn lower_char(c: char) -> (r: char)
    ensures
        r == lower(c),
{
    match c {
        'A' => 'a',
        'B' => 'b',
        'C' => 'c',
        'D' => 'd',
        'E' => 'e',
        'F' => 'f',
        'G' => 'g',
        'H' => 'h',
        'I' => 'i',
        'J' => 'j',
        'K' => 'k',
        'L' => 'l',
        'M' => 'm',
        'N' => 'n',
        'O' => 'o',
        'P' => 'p',
        'Q' => 'q',
        'R' => 'r',
        'S' => 's',
        'T' => 't',
        'U' => 'u',
        'V' => 'v',
        'W' => 'w',
        'X' => 'x',
        'Y' => 'y',
        'Z' => 'z',
        _ => c,
    }
}

/// `s` with its ASCII letters in lower case.
pub fn to_lower(s: &str) -> (r: String)
    ensures
        r@ == lowered(s@),
{
    let v = to_chars(s);
    let mut r = String::new();
    let mut i: usize = 0;
    while i < v.len()
        invariant
            i <= v@.len(),
            v@ == s@,
            r@ == lowered(s@).take(i as int),
        decreases v@.len() - i,
    {
        r.push(lower_char(v[i]));
        assert(r@ =~= lowered(s@).take(i + 1));
        i += 1;
    }
    assert(lowered(s@).take(i as int) =~= lowered(s@));
    r
}

/// The position behind the digits that stand in `v` from `from` on.
pub fn skip_digits(v: &Vec<char>, from: usize) -> (r: usize)
    requires
        from <= v@.len(),
    ensures
        from <= r <= v@.len(),
        r - from == leading_digits(v@.skip(from as int)),
{
    let mut i: usize = from;
    while i < v.len() && '0' <= v[i] && v[i] <= '9'
        invariant
            from <= i <= v@.len(),
            leading_digits(v@.skip(from as int)) == (i - from) + leading_digits(
                v@.skip(i as int),
            ),
        decreases v@.len() - i,
    {
        assert(v@.skip(i as int)[0] == v@[i as int]);
        assert(v@.skip(i as int).skip(1) =~= v@.skip(i + 1));
        i += 1;
    }
    if i < v.len() {
        assert(v@.skip(i as int)[0] == v@[i as int]);
    }
    i
}

pub proof fn lemma_leading_digits(s: Seq<char>)
    ensures
        0 <= leading_digits(s) <= s.len(),
        leading_digits(s) == s.len() <==> all_digits(s),
    decreases s.len(),
{
    if s.len() > 0 && is_digit(s[0]) {
        lemma_leading_digits(s.skip(1));
        if all_digits(s.skip(1)) {
            assert forall|i: int| 0 <= i < s.len() implies is_digit(#[trigger] s[i]) by {
                if i > 0 {
                    assert(s.skip(1)[i - 1] == s[i]);
                }
            }
        }
        if all_digits(s) {
            assert forall|i: int| 0 <= i < s.len() - 1 implies is_digit(
                #[trigger] s.skip(1)[i],
            ) by {
                assert(s[i + 1] == s.skip(1)[i]);
            }
        }
    } else if s.len() > 0 {
        assert(!is_digit(s[0]));
    }
}

/// Whether `v` holds an exponent from `from` on.
fn exponent_at(v: &Vec<char>, from: usize) -> (r: bool)
    requires
        from <= v@.len(),
    ensures
        r == is_exponent(v@.skip(from as int)),
{
    let ghost s = v@.skip(from as int);
    if from == v.len() {
        return false;
    }
    assert(s[0] == v@[from as int]);
    if lower_char(v[from]) != 'e' {
        return false;
    }
    let start: usize = if from + 1 < v.len() && (v[from + 1] == '+' || v[from + 1] == '-') {
        from + 2
    } else {
        from + 1
    };
    proof {
        assert(s.skip(1) =~= v@.skip(from + 1));
        if from + 1 < v@.len() {
            assert(s.skip(1)[0] == v@[from + 1]);
        }
        assert(unsigned_part(s.skip(1)) =~= v@.skip(start as int));
        lemma_leading_digits(v@.skip(start as int));
    }
    let end = skip_digits(v, start);
    start < v.len() && end == v.len()
}

/// Whether `v` holds a number without a sign from `start` on.
pub fn decimal_at(v: &Vec<char>, start: usize) -> (r: bool)
    requires
        start <= v@.len(),
    ensures
        r == is_decimal(v@.skip(start as int)),
{
    let ghost t = v@.skip(start as int);
    let whole = skip_digits(v, start);
    assert(t.skip(whole - start) =~= v@.skip(whole as int));
    let ghost s1 = v@.skip(whole as int);
    if whole < v.len() && v[whole] == '.' {
        assert(s1[0] == '.');
        assert(s1.skip(1) =~= v@.skip(whole + 1));
        let end = skip_digits(v, whole + 1);
        assert(s1.skip(1 + (end - whole - 1)) =~= v@.skip(end as int));
        (whole - start > 0 || end - (whole + 1) > 0) && (end == v.len() || exponent_at(v, end))
    } else {
        if whole < v.len() {
            assert(s1[0] == v@[whole as int]);
        }
        whole - start > 0 && (whole == v.len() || exponent_at(v, whole))
    }
}

/// Whether `s` writes a number, as a sign, a decimal number with an exponent, or a
/// word for infinity or not-a-number.
pub fn reads_as_number(s: &str) -> (r: bool)
    ensures
        r == is_number(s@),
{
    let v = to_chars(s);
    let start: usize = if v.len() > 0 && (v[0] == '+' || v[0] == '-') {
        1
    } else {
        0
    };
    let ghost t = unsigned_part(s@);
    assert(t =~= v@.skip(start as int));
    let body = slice(&v, start, v.len());
    let word = to_lower(body.as_str());
    same(word.as_str(), "inf") || same(word.as_str(), "infinity") || same(word.as_str(), "nan")
        || decimal_at(&v, start)
}

} // verus!
