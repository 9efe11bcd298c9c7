//! Strings: searching, trimming, splitting, joining and rendering numbers.

use vstd::prelude::*;
use vstd::string::*;

use crate::text::{
    after, before, decimal, digit, ends_with, find, find_from, is_space, join,
    lemma_contains_char, lemma_find_from, lemma_find_skip, lemma_word_len, lines, occurs_at,
    signed_decimal, split, starts_with, strip_carriage_return, texts, trim, trim_end, trim_start,
    word_len, words,
};

verus! {

/// `std::string::String::push` appends one character.
pub assume_specification[ std::string::String::push ](s: &mut std::string::String, c: char)
    ensures
        final(s)@ == old(s)@.push(c),
;

// ---------------------------------------------------------------------------
// Characters and strings
// ---------------------------------------------------------------------------

/// The characters of `s`.
pub fn to_chars(s: &str) -> (v: Vec<char>)
    ensures
        v@ == s@,
{
    let mut v: Vec<char> = Vec::new();
    for c in it: s.chars()
        invariant
            it.seq() == s@,
            v@ == s@.take(it.index()),
    {
        v.push(c);
        assert(s@.take(it.index() + 1) =~= s@.take(it.index()).push(c));
    }
    assert(s@.take(s@.len() as int) =~= s@);
    v
}

/// The characters of `v` from `from` up to `to`, as a string.
pub fn slice(v: &Vec<char>, from: usize, to: usize) -> (s: String)
    requires
        from <= to <= v@.len(),
    ensures
        s@ == v@.subrange(from as int, to as int),
{
    let mut s = String::new();
    let mut i: usize = from;
    while i < to
        invariant
            from <= i <= to <= v@.len(),
            s@ == v@.subrange(from as int, i as int),
        decreases to - i,
    {
        s.push(v[i]);
        assert(v@.subrange(from as int, i + 1) =~= v@.subrange(from as int, i as int).push(
            v@[i as int],
        ));
        i += 1;
    }
    s
}

/// Whether two texts are equal.
pub fn same(a: &str, b: &str) -> (r: bool)
    ensures
        r == (a@ == b@),
{
    a.to_owned() == b.to_owned()
}

/// Whether a character is Unicode white space.
pub fn char_is_space(c: char) -> (r: bool)
    ensures
        r == is_space(c),
{
    let n: u32 = c as u32;
    (0x09 <= n && n <= 0x0d) || n == 0x20 || n == 0x85 || n == 0xa0 || n == 0x1680 || (0x2000 <= n
        && n <= 0x200a) || n == 0x2028 || n == 0x2029 || n == 0x202f || n == 0x205f || n == 0x3000
}

/// The first position of `c` in `v` at or after `from`.
pub fn position(v: &Vec<char>, c: char, from: usize) -> (r: Option<usize>)
    requires
        from <= v@.len(),
    ensures
        match r {
            Some(k) => find_from(v@, seq![c], from as int) == Some(k as int) && from <= k
                < v@.len() <= usize::MAX,
            None => find_from(v@, seq![c], from as int) is None,
        },
{
    let mut i: usize = from;
    while i < v.len()
        invariant
            from <= i <= v@.len(),
            find_from(v@, seq![c], from as int) == find_from(v@, seq![c], i as int),
        decreases v@.len() - i,
    {
        assert(v@.subrange(i as int, i + 1) =~= seq![v@[i as int]]);
        if v[i] == c {
            return Some(i);
        }
        assert(seq![v@[i as int]][0] != seq![c][0]);
        i += 1;
    }
    None
}

/// Whether `pat` stands in `v` at position `i`.
pub fn stands_at(v: &Vec<char>, pat: &Vec<char>, i: usize) -> (r: bool)
    requires
        i <= v@.len(),
    ensures
        r == occurs_at(v@, pat@, i as int),
{
    if pat.len() > v.len() - i {
        return false;
    }
    let n: usize = v.len();
    let mut k: usize = 0;
    while k < pat.len()
        invariant
            n == v@.len(),
            i + pat@.len() <= n,
            k <= pat@.len(),
            forall|j: int| 0 <= j < k ==> v@[i + j] == #[trigger] pat@[j],
        decreases pat@.len() - k,
    {
        if v[i + k] != pat[k] {
            assert(v@.subrange(i as int, i + pat@.len())[k as int] != pat@[k as int]);
            return false;
        }
        k += 1;
    }
    assert(v@.subrange(i as int, i + pat@.len()) =~= pat@);
    true
}

/// The first position of `pat` in `v` at or after `from`.
pub fn search(v: &Vec<char>, pat: &Vec<char>, from: usize) -> (r: Option<usize>)
    requires
        from <= v@.len(),
    ensures
        match r {
            Some(k) => find_from(v@, pat@, from as int) == Some(k as int) && from <= k && k
                + pat@.len() <= v@.len() <= usize::MAX,
            None => find_from(v@, pat@, from as int) is None,
        },
{
    let n: usize = v.len();
    let mut i: usize = from;
    loop
        invariant
            n == v@.len(),
            from <= i <= v@.len(),
            find_from(v@, pat@, from as int) == find_from(v@, pat@, i as int),
        decreases v@.len() - i,
    {
        if stands_at(v, pat, i) {
            return Some(i);
        }
        if i == v.len() {
            assert(pat@.len() > 0) by {
                if pat@.len() == 0 {
                    assert(v@.subrange(i as int, i as int) =~= pat@);
                }
            }
            return None;
        }
        i += 1;
    }
}

/// Whether `pat` stands anywhere in `s`.
pub fn contains(s: &str, pat: &str) -> (r: bool)
    ensures
        r == (find(s@, pat@) is Some),
{
    let v = to_chars(s);
    let p = to_chars(pat);
    search(&v, &p, 0).is_some()
}

/// Whether the character `c` stands anywhere in `s`.
pub fn contains_char(s: &str, c: char) -> (r: bool)
    ensures
        r == s@.contains(c),
{
    let v = to_chars(s);
    let r = position(&v, c, 0);
    proof {
        lemma_find_from(s@, seq![c], 0);
        lemma_contains_char(s@, c);
    }
    r.is_some()
}

/// Whether `s` begins with `pat`.
pub fn has_prefix(s: &str, pat: &str) -> (r: bool)
    ensures
        r == starts_with(s@, pat@),
{
    let v = to_chars(s);
    let p = to_chars(pat);
    stands_at(&v, &p, 0)
}

/// Whether `s` ends with `pat`.
pub fn has_suffix(s: &str, pat: &str) -> (r: bool)
    ensures
        r == ends_with(s@, pat@),
{
    let v = to_chars(s);
    let p = to_chars(pat);
    if p.len() > v.len() {
        return false;
    }
    let at: usize = v.len() - p.len();
    let r = stands_at(&v, &p, at);
    assert(s@.subrange(at as int, at + p@.len()) =~= s@.subrange(
        s@.len() - pat@.len(),
        s@.len() as int,
    ));
    r
}

/// What follows `pat` in `s`, if `s` begins with it.
pub fn without_prefix(s: &str, pat: &str) -> (r: Option<String>)
    ensures
        match r {
            Some(rest) => starts_with(s@, pat@) && rest@ == s@.skip(pat@.len() as int),
            None => !starts_with(s@, pat@),
        },
{
    let v = to_chars(s);
    let p = to_chars(pat);
    if stands_at(&v, &p, 0) {
        Some(slice(&v, p.len(), v.len()))
    } else {
        None
    }
}

/// `s` without the white space at its start.
pub fn trimmed_start(s: &str) -> (r: String)
    ensures
        r@ == trim_start(s@),
{
    let v = to_chars(s);
    let mut i: usize = 0;
    assert(v@.skip(0) =~= v@);
    while i < v.len() && char_is_space(v[i])
        invariant
            i <= v@.len(),
            trim_start(v@) == trim_start(v@.skip(i as int)),
        decreases v@.len() - i,
    {
        assert(v@.skip(i as int)[0] == v@[i as int]);
        assert(v@.skip(i as int).skip(1) =~= v@.skip(i + 1));
        i += 1;
    }
    if i < v.len() {
        assert(v@.skip(i as int)[0] == v@[i as int]);
    }
    slice(&v, i, v.len())
}

/// `s` without the white space at its end.
pub fn trimmed_end(s: &str) -> (r: String)
    ensures
        r@ == trim_end(s@),
{
    let v = to_chars(s);
    let mut i: usize = v.len();
    assert(v@.take(v@.len() as int) =~= v@);
    while i > 0 && char_is_space(v[i - 1])
        invariant
            i <= v@.len(),
            trim_end(v@) == trim_end(v@.take(i as int)),
        decreases i,
    {
        assert(v@.take(i as int).last() == v@[i - 1]);
        assert(v@.take(i as int).drop_last() =~= v@.take(i - 1));
        i -= 1;
    }
    if i > 0 {
        assert(v@.take(i as int).last() == v@[i - 1]);
    }
    slice(&v, 0, i)
}

/// `s` without the white space at either end.
pub fn trimmed(s: &str) -> (r: String)
    ensures
        r@ == trim(s@),
{
    let t = trimmed_start(s);
    trimmed_end(t.as_str())
}

/// Whether `s` holds nothing but white space.
pub fn is_blank(s: &str) -> (r: bool)
    ensures
        r == (trim(s@).len() == 0),
{
    let t = trimmed(s);
    t.as_str().is_empty()
}

/// What stands before the first `c`: all of `s` if there is none.
pub fn text_before(s: &str, c: char) -> (r: String)
    ensures
        r@ == before(s@, c),
{
    let v = to_chars(s);
    match position(&v, c, 0) {
        Some(i) => slice(&v, 0, i),
        None => s.to_owned(),
    }
}

/// What stands behind the first `c`, if there is one.
pub fn text_after(s: &str, c: char) -> (r: Option<String>)
    ensures
        match r {
            Some(t) => after(s@, c) == Some(t@),
            None => after(s@, c) is None,
        },
{
    let v = to_chars(s);
    match position(&v, c, 0) {
        Some(i) => Some(slice(&v, i + 1, v.len())),
        None => None,
    }
}

/// The pieces of `s` between occurrences of `c`.
pub fn pieces(s: &str, c: char) -> (r: Vec<String>)
    ensures
        texts(r@) == split(s@, c),
{
    let v = to_chars(s);
    let mut r: Vec<String> = Vec::new();
    let mut at: usize = 0;
    assert(v@.skip(0) =~= v@);
    assert(texts(r@) + split(v@, c) =~= split(v@, c));
    loop
        invariant
            at <= v@.len(),
            texts(r@) + split(v@.skip(at as int), c) == split(v@, c),
            v@ == s@,
        decreases v@.len() - at,
    {
        let ghost rest = v@.skip(at as int);
        let found = position(&v, c, at);
        proof {
            lemma_find_skip(v@, seq![c], at as int);
        }
        match found {
            Some(i) => {
                let piece = slice(&v, at, i);
                let ghost had = texts(r@);
                r.push(piece);
                proof {
                    assert(rest.take(i - at) =~= piece@);
                    assert(rest.skip(i - at + 1) =~= v@.skip(i + 1));
                    assert(texts(r@) =~= had.push(piece@));
                    assert(texts(r@) + split(v@.skip(i + 1), c) =~= had + (seq![piece@] + split(
                        v@.skip(i + 1),
                        c,
                    )));
                }
                at = i + 1;
            },
            None => {
                let piece = slice(&v, at, v.len());
                let ghost had = texts(r@);
                r.push(piece);
                proof {
                    assert(rest =~= piece@);
                    assert(texts(r@) =~= had + seq![piece@]);
                }
                return r;
            },
        }
    }
}

/// The lines of `s`.
pub fn text_lines(s: &str) -> (r: Vec<String>)
    ensures
        texts(r@) == lines(s@),
{
    let v = to_chars(s);
    let mut r: Vec<String> = Vec::new();
    let mut at: usize = 0;
    assert(v@.skip(0) =~= v@);
    assert(texts(r@) + lines(v@) =~= lines(v@));
    while at < v.len()
        invariant
            at <= v@.len(),
            texts(r@) + lines(v@.skip(at as int)) == lines(v@),
            v@ == s@,
        decreases v@.len() - at,
    {
        let ghost rest = v@.skip(at as int);
        let ghost had = texts(r@);
        let found = position(&v, '\n', at);
        proof {
            lemma_find_skip(v@, seq!['\n'], at as int);
        }
        match found {
            Some(i) => {
                let end: usize = if i > at && v[i - 1] == '\r' {
                    i - 1
                } else {
                    i
                };
                let piece = slice(&v, at, end);
                r.push(piece);
                proof {
                    let taken = rest.take(i - at);
                    assert(taken =~= v@.subrange(at as int, i as int));
                    if taken.len() > 0 {
                        assert(taken.last() == v@[i - 1]);
                    }
                    assert(piece@ =~= strip_carriage_return(taken));
                    assert(rest.skip(i - at + 1) =~= v@.skip(i + 1));
                    assert(texts(r@) =~= had.push(piece@));
                    assert(texts(r@) + lines(v@.skip(i + 1)) =~= had + (seq![piece@] + lines(
                        v@.skip(i + 1),
                    )));
                }
                at = i + 1;
            },
            None => {
                let piece = slice(&v, at, v.len());
                r.push(piece);
                at = v.len();
                proof {
                    assert(rest =~= piece@);
                    assert(texts(r@) =~= had.push(piece@));
                    assert(v@.skip(at as int) =~= Seq::<char>::empty());
                    assert(texts(r@) + lines(v@.skip(at as int)) =~= had + seq![piece@]);
                }
            },
        }
    }
    assert(v@.skip(at as int) =~= Seq::<char>::empty());
    assert(texts(r@) + lines(v@.skip(at as int)) =~= texts(r@));
    r
}

/// The words of `s`.
pub fn text_words(s: &str) -> (r: Vec<String>)
    ensures
        texts(r@) == words(s@),
{
    let v = to_chars(s);
    let mut r: Vec<String> = Vec::new();
    let mut at: usize = 0;
    assert(v@.skip(0) =~= v@);
    assert(texts(r@) + words(v@) =~= words(v@));
    loop
        invariant
            at <= v@.len(),
            texts(r@) + words(v@.skip(at as int)) == words(v@),
            v@ == s@,
        decreases v@.len() - at,
    {
        let ghost rest = v@.skip(at as int);
        let ghost had = texts(r@);
        let mut start: usize = at;
        while start < v.len() && char_is_space(v[start])
            invariant
                at <= start <= v@.len(),
                rest == v@.skip(at as int),
                trim_start(rest) == trim_start(v@.skip(start as int)),
            decreases v@.len() - start,
        {
            assert(v@.skip(start as int)[0] == v@[start as int]);
            assert(v@.skip(start as int).skip(1) =~= v@.skip(start + 1));
            start += 1;
        }
        let ghost t = v@.skip(start as int);
        assert(trim_start(rest) == t) by {
            if start < v@.len() {
                assert(t[0] == v@[start as int]);
            }
        }
        if start == v.len() {
            assert(texts(r@) + words(rest) =~= texts(r@));
            return r;
        }
        let mut end: usize = start;
        assert(v@.skip(start as int) =~= t);
        while end < v.len() && !char_is_space(v[end])
            invariant
                start <= end <= v@.len(),
                word_len(t) == (end - start) + word_len(v@.skip(end as int)),
            decreases v@.len() - end,
        {
            assert(v@.skip(end as int)[0] == v@[end as int]);
            assert(v@.skip(end as int).skip(1) =~= v@.skip(end + 1));
            end += 1;
        }
        assert(word_len(v@.skip(end as int)) == 0) by {
            if end < v@.len() {
                assert(v@.skip(end as int)[0] == v@[end as int]);
            }
        }
        proof {
            lemma_word_len(t);
            assert(t[0] == v@[start as int]);
        }
        let piece = slice(&v, start, end);
        r.push(piece);
        proof {
            assert(t.take(word_len(t)) =~= piece@);
            assert(t.skip(word_len(t)) =~= v@.skip(end as int));
            assert(texts(r@) =~= had.push(piece@));
            assert(texts(r@) + words(v@.skip(end as int)) =~= had + (seq![piece@] + words(
                v@.skip(end as int),
            )));
        }
        at = end;
    }
}

/// The strings of `parts` one after another, with `sep` between neighbours.
pub fn joined(parts: &Vec<String>, sep: &str) -> (r: String)
    ensures
        r@ == join(texts(parts@), sep@),
{
    let mut r = String::new();
    let mut i: usize = 0;
    assert(texts(parts@).take(0) =~= Seq::<Seq<char>>::empty());
    while i < parts.len()
        invariant
            i <= parts@.len(),
            r@ == join(texts(parts@).take(i as int), sep@),
        decreases parts@.len() - i,
    {
        let ghost upto = texts(parts@).take(i + 1);
        assert(upto.drop_last() =~= texts(parts@).take(i as int));
        assert(upto.last() == parts@[i as int]@);
        if i > 0 {
            r.append(sep);
        }
        r.append(parts[i].as_str());
        if i == 0 {
            assert(r@ =~= parts@[0]@);
        }
        i += 1;
    }
    assert(texts(parts@).take(i as int) =~= texts(parts@));
    r
}

/// Two texts one after the other.
pub fn cat2(a: &str, b: &str) -> (r: String)
    ensures
        r@ == a@ + b@,
{
    let mut r = a.to_owned();
    r.append(b);
    r
}

/// Three texts one after the other.
pub fn cat3(a: &str, b: &str, c: &str) -> (r: String)
    ensures
        r@ == a@ + b@ + c@,
{
    let mut r = cat2(a, b);
    r.append(c);
    r
}

/// Four texts one after the other.
pub fn cat4(a: &str, b: &str, c: &str, d: &str) -> (r: String)
    ensures
        r@ == a@ + b@ + c@ + d@,
{
    let mut r = cat3(a, b, c);
    r.append(d);
    r
}

/// Five texts one after the other.
pub fn cat5(a: &str, b: &str, c: &str, d: &str, e: &str) -> (r: String)
    ensures
        r@ == a@ + b@ + c@ + d@ + e@,
{
    let mut r = cat4(a, b, c, d);
    r.append(e);
    r
}

/// Six texts one after the other.
pub fn cat6(a: &str, b: &str, c: &str, d: &str, e: &str, f: &str) -> (r: String)
    ensures
        r@ == a@ + b@ + c@ + d@ + e@ + f@,
{
    let mut r = cat5(a, b, c, d, e);
    r.append(f);
    r
}

/// Seven texts one after the other.
pub fn cat7(a: &str, b: &str, c: &str, d: &str, e: &str, f: &str, g: &str) -> (r: String)
    ensures
        r@ == a@ + b@ + c@ + d@ + e@ + f@ + g@,
{
    let mut r = cat6(a, b, c, d, e, f);
    r.append(g);
    r
}

/// The character of a decimal digit.
pub fn digit_char(n: u64) -> (c: char)
    requires
        n < 10,
    ensures
        c == digit(n as nat),
{
    match n {
        0 => '0',
        1 => '1',
        2 => '2',
        3 => '3',
        4 => '4',
        5 => '5',
        6 => '6',
        7 => '7',
        8 => '8',
        _ => '9',
    }
}

/// The decimal digits of `n`.
pub fn decimal_u64(n: u64) -> (r: String)
    ensures
        r@ == decimal(n as nat),
    decreases n,
{
    let mut r = if n < 10 {
        String::new()
    } else {
        decimal_u64(n / 10)
    };
    r.push(digit_char(n % 10));
    if n < 10 {
        assert(r@ =~= seq![digit(n as nat)]);
    }
    r
}

/// The decimal digits of `n`.
pub fn decimal_u128(n: u128) -> (r: String)
    ensures
        r@ == decimal(n as nat),
    decreases n,
{
    let mut r = if n < 10 {
        String::new()
    } else {
        decimal_u128(n / 10)
    };
    r.push(digit_char((n % 10) as u64));
    if n < 10 {
        assert(r@ =~= seq![digit(n as nat)]);
    }
    r
}

/// The decimal digits of `n`, with a minus sign if it is negative.
pub fn decimal_i64(n: i64) -> (r: String)
    ensures
        r@ == signed_decimal(n as int),
{
    if n < 0 {
        let mut r = String::new();
        r.push('-');
        let size: u64 = if n == i64::MIN {
            9223372036854775808
        } else {
            (-n) as u64
        };
        let digits = decimal_u64(size);
        r.append(digits.as_str());
        assert(r@ =~= seq!['-'] + decimal((-n) as nat));
        r
    } else {
        decimal_u64(n as u64)
    }
}

} // verus!
