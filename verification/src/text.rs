//! What searching, trimming, splitting and joining text means, over sequences of
//! characters.

use vstd::prelude::*;
use vstd::string::*;

verus! {

// ---------------------------------------------------------------------------
// Models
// ---------------------------------------------------------------------------

/// The contents of a list of strings.
pub open spec fn texts(v: Seq<String>) -> Seq<Seq<char>> {
    v.map_values(|s: String| s@)
}

/// The optional text of an optional string.
pub open spec fn opt_text(o: Option<String>) -> Option<Seq<char>> {
    match o {
        Some(s) => Some(s@),
        None => None,
    }
}

/// The optional text of an optional string slice.
pub open spec fn opt_slice(o: Option<&str>) -> Option<Seq<char>> {
    match o {
        Some(s) => Some(s@),
        None => None,
    }
}

/// Whether a character is Unicode white space.
pub open spec fn is_space(c: char) -> bool {
    let n = c as u32;
    ||| 0x09 <= n <= 0x0d
    ||| n == 0x20
    ||| n == 0x85
    ||| n == 0xa0
    ||| n == 0x1680
    ||| 0x2000 <= n <= 0x200a
    ||| n == 0x2028
    ||| n == 0x2029
    ||| n == 0x202f
    ||| n == 0x205f
    ||| n == 0x3000
}

/// Whether `pat` stands in `s` at position `i`.
pub open spec fn occurs_at(s: Seq<char>, pat: Seq<char>, i: int) -> bool {
    &&& 0 <= i
    &&& i + pat.len() <= s.len()
    &&& s.subrange(i, i + pat.len()) == pat
}

/// The first position at or after `i` at which `pat` stands in `s`.
pub open spec fn find_from(s: Seq<char>, pat: Seq<char>, i: int) -> Option<int>
    decreases s.len() - i + 1,
{
    if i + pat.len() > s.len() {
        None
    } else if occurs_at(s, pat, i) {
        Some(i)
    } else {
        find_from(s, pat, i + 1)
    }
}

/// The first position at which `pat` stands in `s`.
pub open spec fn find(s: Seq<char>, pat: Seq<char>) -> Option<int> {
    find_from(s, pat, 0)
}

/// The first position of the character `c` in `s`.
pub open spec fn find_char(s: Seq<char>, c: char) -> Option<int> {
    find(s, seq![c])
}

/// Whether `s` begins with `pat`.
pub open spec fn starts_with(s: Seq<char>, pat: Seq<char>) -> bool {
    pat.is_prefix_of(s)
}

/// Whether `s` ends with `pat`.
pub open spec fn ends_with(s: Seq<char>, pat: Seq<char>) -> bool {
    pat.is_suffix_of(s)
}

/// `s` without the white space at its start.
pub open spec fn trim_start(s: Seq<char>) -> Seq<char>
    decreases s.len(),
{
    if s.len() > 0 && is_space(s[0]) {
        trim_start(s.skip(1))
    } else {
        s
    }
}

/// `s` without the white space at its end.
pub open spec fn trim_end(s: Seq<char>) -> Seq<char>
    decreases s.len(),
{
    if s.len() > 0 && is_space(s.last()) {
        trim_end(s.drop_last())
    } else {
        s
    }
}

/// `s` without the white space at either end.
pub open spec fn trim(s: Seq<char>) -> Seq<char> {
    trim_end(trim_start(s))
}

/// The pieces of `s` between occurrences of the character `c`.
pub open spec fn split(s: Seq<char>, c: char) -> Seq<Seq<char>>
    decreases s.len(),
{
    match find_char(s, c) {
        Some(i) if 0 <= i < s.len() => seq![s.take(i)] + split(s.skip(i + 1), c),
        _ => seq![s],
    }
}

/// What stands before the first `c`: all of `s` if there is none.
pub open spec fn before(s: Seq<char>, c: char) -> Seq<char> {
    match find_char(s, c) {
        Some(i) => s.take(i),
        None => s,
    }
}

/// What stands behind the first `c`, if there is one.
pub open spec fn after(s: Seq<char>, c: char) -> Option<Seq<char>> {
    match find_char(s, c) {
        Some(i) => Some(s.skip(i + 1)),
        None => None,
    }
}

/// A line's text without the carriage return that ended it.
pub open spec fn strip_carriage_return(s: Seq<char>) -> Seq<char> {
    if s.len() > 0 && s.last() == '\r' {
        s.drop_last()
    } else {
        s
    }
}

/// The lines of `s`. A line ends in a line feed, with or without a carriage
/// return before it; the last line need not end.
pub open spec fn lines(s: Seq<char>) -> Seq<Seq<char>>
    decreases s.len(),
{
    if s.len() == 0 {
        seq![]
    } else {
        match find_char(s, '\n') {
            Some(i) if 0 <= i < s.len() => seq![strip_carriage_return(s.take(i))] + lines(
                s.skip(i + 1),
            ),
            _ => seq![s],
        }
    }
}

/// How many characters `s` has before its first white space.
pub open spec fn word_len(s: Seq<char>) -> int
    decreases s.len(),
{
    if s.len() == 0 || is_space(s[0]) {
        0
    } else {
        1 + word_len(s.skip(1))
    }
}

/// The words of `s`: its longest pieces without white space.
pub open spec fn words(s: Seq<char>) -> Seq<Seq<char>>
    decreases s.len(),
    via words_decreases
{
    let t = trim_start(s);
    if t.len() == 0 {
        seq![]
    } else {
        seq![t.take(word_len(t))] + words(t.skip(word_len(t)))
    }
}

#[via_fn]
proof fn words_decreases(s: Seq<char>) {
    let t = trim_start(s);
    lemma_trim_start(s);
    lemma_word_len(t);
}

/// The texts of `parts` one after another, with `sep` between neighbours.
pub open spec fn join(parts: Seq<Seq<char>>, sep: Seq<char>) -> Seq<char>
    decreases parts.len(),
{
    if parts.len() == 0 {
        seq![]
    } else if parts.len() == 1 {
        parts[0]
    } else {
        join(parts.drop_last(), sep) + sep + parts.last()
    }
}

/// The decimal digits of `n`.
pub open spec fn decimal(n: nat) -> Seq<char>
    decreases n,
{
    if n < 10 {
        seq![digit(n)]
    } else {
        decimal(n / 10).push(digit(n % 10))
    }
}

/// The decimal digit of a number below ten.
pub open spec fn digit(n: nat) -> char {
    (('0' as u32) + n) as u32 as char
}

/// The decimal digits of `n`, with a minus sign if it is negative.
pub open spec fn signed_decimal(n: int) -> Seq<char> {
    if n < 0 {
        seq!['-'] + decimal((-n) as nat)
    } else {
        decimal(n as nat)
    }
}

// ---------------------------------------------------------------------------
// Lemmas
// ---------------------------------------------------------------------------

/// `trim_start` drops a prefix of white space.
pub proof fn lemma_trim_start(s: Seq<char>)
    ensures
        trim_start(s).len() <= s.len(),
        trim_start(s) == s.skip(s.len() - trim_start(s).len()),
        trim_start(s).len() > 0 ==> !is_space(trim_start(s)[0]),
        forall|i: int| 0 <= i < s.len() - trim_start(s).len() ==> is_space(#[trigger] s[i]),
    decreases s.len(),
{
    if s.len() > 0 && is_space(s[0]) {
        lemma_trim_start(s.skip(1));
        let k = s.skip(1).len() - trim_start(s.skip(1)).len();
        assert(s.skip(1).skip(k) =~= s.skip(k + 1));
        assert forall|i: int| 0 <= i < s.len() - trim_start(s).len() implies is_space(#[trigger] s[i]) by {
            if i > 0 {
                assert(s.skip(1)[i - 1] == s[i]);
            }
        }
    } else {
        assert(s.skip(0) =~= s);
    }
}

/// `word_len` counts characters that are not white space.
pub proof fn lemma_word_len(s: Seq<char>)
    ensures
        0 <= word_len(s) <= s.len(),
        s.len() > 0 && !is_space(s[0]) ==> word_len(s) > 0,
    decreases s.len(),
{
    if s.len() > 0 && !is_space(s[0]) {
        lemma_word_len(s.skip(1));
    }
}

/// What `find_from` returns is the first place at which the pattern stands.
pub proof fn lemma_find_from(s: Seq<char>, pat: Seq<char>, i: int)
    requires
        0 <= i,
    ensures
        match find_from(s, pat, i) {
            Some(k) => i <= k && occurs_at(s, pat, k) && forall|j: int|
                i <= j < k ==> !#[trigger] occurs_at(s, pat, j),
            None => forall|j: int| i <= j ==> !#[trigger] occurs_at(s, pat, j),
        },
    decreases s.len() - i + 1,
{
    if i + pat.len() > s.len() {
    } else if occurs_at(s, pat, i) {
    } else {
        lemma_find_from(s, pat, i + 1);
    }
}

/// The first place at which a pattern stands is found.
pub proof fn lemma_first_is_found(s: Seq<char>, pat: Seq<char>, n: int)
    requires
        occurs_at(s, pat, n),
        forall|j: int| 0 <= j < n ==> !#[trigger] occurs_at(s, pat, j),
    ensures
        find(s, pat) == Some(n),
{
    lemma_find_from(s, pat, 0);
}

/// A character is found exactly where it is contained.
pub proof fn lemma_contains_char(s: Seq<char>, c: char)
    ensures
        find_char(s, c) is Some <==> s.contains(c),
        find_char(s, c) matches Some(k) ==> 0 <= k < s.len() && s[k] == c,
{
    lemma_find_from(s, seq![c], 0);
    match find_char(s, c) {
        Some(k) => {
            assert(s.subrange(k, k + 1)[0] == s[k]);
        },
        None => {
            if s.contains(c) {
                let j = choose|j: int| 0 <= j < s.len() && s[j] == c;
                assert(s.subrange(j, j + 1) =~= seq![c]);
                assert(occurs_at(s, seq![c], j));
            }
        },
    }
}

/// Searching from a position is searching what follows it.
pub proof fn lemma_find_skip(s: Seq<char>, pat: Seq<char>, at: int)
    requires
        0 <= at <= s.len(),
    ensures
        match find_from(s, pat, at) {
            Some(k) => find(s.skip(at), pat) == Some(k - at),
            None => find(s.skip(at), pat) is None,
        },
{
    lemma_find_skip_from(s, pat, at, 0);
}

proof fn lemma_find_skip_from(s: Seq<char>, pat: Seq<char>, at: int, i: int)
    requires
        0 <= at <= s.len(),
        0 <= i,
    ensures
        match find_from(s, pat, at + i) {
            Some(k) => find_from(s.skip(at), pat, i) == Some(k - at),
            None => find_from(s.skip(at), pat, i) is None,
        },
    decreases s.len() - at - i + 1,
{
    if at + i + pat.len() <= s.len() {
        assert(s.skip(at).subrange(i, i + pat.len()) =~= s.subrange(at + i, at + i + pat.len()));
        if !occurs_at(s, pat, at + i) {
            lemma_find_skip_from(s, pat, at, i + 1);
        }
    }
}

// ---------------------------------------------------------------------------
// What the models mean
// ---------------------------------------------------------------------------

/// Whether a text neither starts nor ends in white space.
pub open spec fn is_trim(s: Seq<char>) -> bool {
    s.len() > 0 ==> !is_space(s[0]) && !is_space(s.last())
}

/// Whether a text holds nothing but white space.
pub open spec fn is_white(s: Seq<char>) -> bool {
    forall|i: int| 0 <= i < s.len() ==> is_space(#[trigger] s[i])
}

/// A text that neither starts nor ends in white space is its own trimmed text.
pub proof fn trimmed_text_stays(s: Seq<char>)
    requires
        is_trim(s),
    ensures
        trim(s) == s,
{
}

/// Trimming takes the white space off both ends of a text, and nothing else.
pub proof fn trimming_takes_white_space(front: Seq<char>, s: Seq<char>, back: Seq<char>)
    requires
        is_white(front),
        is_white(back),
        is_trim(s),
    ensures
        trim(front + s + back) == s,
{
    let all = front + s + back;
    if s.len() == 0 {
        assert forall|i: int| 0 <= i < all.len() implies is_space(#[trigger] all[i]) by {
            if i < front.len() {
                assert(all[i] == front[i]);
            } else {
                assert(all[i] == back[i - front.len()]);
            }
        }
        lemma_white_start(all, Seq::<char>::empty());
        assert(all + Seq::<char>::empty() =~= all);
        assert(trim_start(all) =~= s);
    } else {
        lemma_white_start(front, s + back);
        assert(front + (s + back) =~= all);
        lemma_white_end(s, back);
    }
}

proof fn lemma_white_start(front: Seq<char>, s: Seq<char>)
    requires
        is_white(front),
        s.len() > 0 ==> !is_space(s[0]),
    ensures
        trim_start(front + s) == s,
    decreases front.len(),
{
    if front.len() > 0 {
        let rest = front.skip(1);
        assert forall|i: int| 0 <= i < rest.len() implies is_space(#[trigger] rest[i]) by {
            assert(rest[i] == front[i + 1]);
        }
        lemma_white_start(rest, s);
        assert((front + s).skip(1) =~= rest + s);
        assert((front + s)[0] == front[0]);
    } else {
        assert(front + s =~= s);
    }
}

proof fn lemma_white_end(s: Seq<char>, back: Seq<char>)
    requires
        is_white(back),
        s.len() > 0 ==> !is_space(s.last()),
    ensures
        trim_end(s + back) == s,
    decreases back.len(),
{
    if back.len() > 0 {
        let rest = back.drop_last();
        assert forall|i: int| 0 <= i < rest.len() implies is_space(#[trigger] rest[i]) by {
            assert(rest[i] == back[i]);
        }
        lemma_white_end(s, rest);
        assert((s + back).drop_last() =~= s + rest);
        assert((s + back).last() == back.last());
    } else {
        assert(s + back =~= s);
    }
}

/// A text is parted at the first place of a character.
pub proof fn lemma_split_at(front: Seq<char>, c: char, back: Seq<char>)
    requires
        !front.contains(c),
    ensures
        find_char(front + seq![c] + back, c) == Some(front.len() as int),
        before(front + seq![c] + back, c) == front,
        after(front + seq![c] + back, c) == Some(back),
{
    let all = front + seq![c] + back;
    let n = front.len() as int;
    assert(all.subrange(n, n + 1) =~= seq![c]);
    assert forall|j: int| 0 <= j < n implies !#[trigger] occurs_at(all, seq![c], j) by {
        assert(all.subrange(j, j + 1)[0] == front[j]);
        assert(front.contains(front[j]));
    }
    lemma_first_is_found(all, seq![c], n);
    assert(all.take(n) =~= front);
    assert(all.skip(n + 1) =~= back);
}

/// Whether a text can stand on a line of its own: it holds no line feed, and does not end in a
/// carriage return.
pub open spec fn fits_a_line(s: Seq<char>) -> bool {
    !s.contains('\n') && (s.len() > 0 ==> s.last() != '\r')
}

/// Texts with a line feed behind each are read back as lines, in order; so are they with a
/// carriage return before each line feed.
pub proof fn lines_read_back(first: Seq<char>, rest: Seq<char>)
    requires
        fits_a_line(first),
    ensures
        lines(first + seq!['\n'] + rest) == seq![first] + lines(rest),
        lines(first + seq!['\r', '\n'] + rest) == seq![first] + lines(rest),
        first.len() > 0 ==> lines(first) == seq![first],
        lines(Seq::<char>::empty()) == Seq::<Seq<char>>::empty(),
{
    lemma_split_at(first, '\n', rest);
    let longer = first + seq!['\r'];
    assert(!longer.contains('\n')) by {
        if longer.contains('\n') {
            let j = choose|j: int| 0 <= j < longer.len() && longer[j] == '\n';
            assert(first[j] == '\n');
        }
    }
    lemma_split_at(longer, '\n', rest);
    assert(longer + seq!['\n'] + rest =~= first + seq!['\r', '\n'] + rest);
    assert(longer.drop_last() =~= first);
    let all = first + seq!['\n'] + rest;
    assert(all.take(first.len() as int) =~= first);
    assert(all.skip(first.len() + 1int) =~= rest);
    let other = longer + seq!['\n'] + rest;
    assert(other.take(longer.len() as int) =~= longer);
    assert(other.skip(longer.len() + 1int) =~= rest);
    lemma_contains_char(first, '\n');
}

/// What is joined by a character that the pieces do not hold is split into the same pieces.
pub proof fn split_undoes_join(pieces: Seq<Seq<char>>, c: char)
    requires
        pieces.len() > 0,
        forall|i: int| 0 <= i < pieces.len() ==> !(#[trigger] pieces[i]).contains(c),
    ensures
        split(join(pieces, seq![c]), c) == pieces,
    decreases pieces.len(),
{
    if pieces.len() == 1 {
        lemma_contains_char(pieces[0], c);
        assert(split(pieces[0], c) =~= pieces);
    } else {
        let rest = pieces.skip(1);
        lemma_join_from_the_front(pieces, seq![c]);
        assert forall|i: int| 0 <= i < rest.len() implies !(#[trigger] rest[i]).contains(c) by {
            assert(rest[i] == pieces[i + 1]);
        }
        split_undoes_join(rest, c);
        let tail = join(rest, seq![c]);
        lemma_split_at(pieces[0], c, tail);
        let all = pieces[0] + seq![c] + tail;
        assert(all.take(pieces[0].len() as int) =~= pieces[0]);
        assert(all.skip(pieces[0].len() + 1int) =~= tail);
        assert(seq![pieces[0]] + rest =~= pieces);
    }
}

/// Joining can begin at the front.
pub proof fn lemma_join_from_the_front(parts: Seq<Seq<char>>, sep: Seq<char>)
    requires
        parts.len() >= 2,
    ensures
        join(parts, sep) == parts[0] + sep + join(parts.skip(1), sep),
    decreases parts.len(),
{
    if parts.len() == 2 {
        assert(parts.drop_last() =~= seq![parts[0]]);
        assert(parts.skip(1) =~= seq![parts[1]]);
        assert(join(parts.drop_last(), sep) == parts[0]);
        assert(join(parts.skip(1), sep) == parts[1]);
        assert(join(parts, sep) == parts[0] + sep + parts[1]);
    } else {
        lemma_join_from_the_front(parts.drop_last(), sep);
        assert(parts.drop_last().skip(1) =~= parts.skip(1).drop_last());
        assert(join(parts, sep) =~= parts[0] + sep + join(parts.skip(1), sep));
    }
}

/// A word with white space around it is the first word; what follows gives the others.
pub proof fn words_read_back(front: Seq<char>, word: Seq<char>, gap: char, rest: Seq<char>)
    requires
        is_white(front),
        word.len() > 0,
        forall|i: int| 0 <= i < word.len() ==> !is_space(#[trigger] word[i]),
        is_space(gap),
    ensures
        words(front + word + seq![gap] + rest) == seq![word] + words(rest),
        words(front + word) == seq![word],
        words(front) == Seq::<Seq<char>>::empty(),
{
    let none = Seq::<char>::empty();
    let tail = seq![gap] + rest;
    assert(word[0] == word[0]);
    lemma_white_start(front, word + tail);
    assert(front + (word + tail) =~= front + word + seq![gap] + rest);
    lemma_words_of(word, tail);
    lemma_gap(gap, rest);
    lemma_white_start(front, word);
    lemma_words_of(word, none);
    assert(word + none =~= word);
    lemma_white_start(front, none);
    assert(front + none =~= front);
    lemma_white_start(none, none);
    assert(none + none =~= none);
    assert(trim_start(none) == none);
    assert(words(none) =~= seq![]);
    let t = word + tail;
    assert(words(front + t) == seq![t.take(word_len(t))] + words(t.skip(word_len(t))));
    assert(t.skip(word.len() as int) =~= tail);
    assert(t.take(word.len() as int) =~= word);
    assert(word.take(word.len() as int) =~= word);
    assert(word.skip(word.len() as int) =~= none);
    assert(words(front + word) =~= seq![word]);
}

proof fn lemma_gap(gap: char, rest: Seq<char>)
    requires
        is_space(gap),
    ensures
        words(seq![gap] + rest) == words(rest),
{
    assert((seq![gap] + rest).skip(1) =~= rest);
}

proof fn lemma_words_of(word: Seq<char>, rest: Seq<char>)
    requires
        forall|i: int| 0 <= i < word.len() ==> !is_space(#[trigger] word[i]),
        rest.len() > 0 ==> is_space(rest[0]),
    ensures
        word_len(word + rest) == word.len(),
    decreases word.len(),
{
    if word.len() > 0 {
        let tail = word.skip(1);
        assert forall|i: int| 0 <= i < tail.len() implies !is_space(#[trigger] tail[i]) by {
            assert(tail[i] == word[i + 1]);
        }
        lemma_words_of(tail, rest);
        assert((word + rest).skip(1) =~= tail + rest);
        assert((word + rest)[0] == word[0]);
    } else {
        assert(word + rest =~= rest);
    }
}

/// The number that decimal digits stand for.
pub open spec fn number_of(digits: Seq<char>) -> nat
    decreases digits.len(),
{
    if digits.len() == 0 {
        0
    } else {
        number_of(digits.drop_last()) * 10 + ((digits.last() as u32) - ('0' as u32)) as nat
    }
}

/// The decimal digits of a number stand for that number.
pub proof fn decimals_read_back(n: nat)
    ensures
        number_of(decimal(n)) == n,
        decimal(n).len() > 0,
        forall|i: int| 0 <= i < decimal(n).len() ==> '0' <= #[trigger] decimal(n)[i] <= '9',
        n > 0 ==> decimal(n)[0] != '0',
    decreases n,
{
    if n < 10 {
        assert(decimal(n).drop_last() =~= seq![]);
        assert(number_of(decimal(n).drop_last()) == 0);
        assert(decimal(n).last() as u32 == '0' as u32 + n);
    } else {
        decimals_read_back(n / 10);
        let front = decimal(n / 10);
        assert(decimal(n).drop_last() =~= front);
        assert(decimal(n).last() as u32 == '0' as u32 + n % 10);
        assert forall|i: int| 0 <= i < decimal(n).len() implies '0' <= #[trigger] decimal(n)[i]
            <= '9' by {
            if i < front.len() {
                assert(decimal(n)[i] == front[i]);
            }
        }
        assert(decimal(n)[0] == front[0]);
    }
}

/// Different numbers have different decimal digits.
pub proof fn decimals_tell_numbers_apart(a: nat, b: nat)
    requires
        decimal(a) == decimal(b),
    ensures
        a == b,
{
    decimals_read_back(a);
    decimals_read_back(b);
}

} // verus!
