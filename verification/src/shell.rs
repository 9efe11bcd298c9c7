//! Quoting of words for a POSIX shell.

use vstd::prelude::*;
use vstd::string::*;

use crate::strings::to_chars;
use crate::text::join;

verus! {

/// How a character is written between single quotes: a single quote closes the
/// quotes, stands escaped, and opens them again.
pub open spec fn quoted_char(c: char) -> Seq<char> {
    if c == '\'' {
        seq!['\'', '\\', '\'', '\'']
    } else {
        seq![c]
    }
}

/// The characters of `v` as they are written between single quotes.
pub open spec fn quoted_chars(v: Seq<char>) -> Seq<char>
    decreases v.len(),
{
    if v.len() == 0 {
        seq![]
    } else {
        quoted_char(v[0]) + quoted_chars(v.skip(1))
    }
}

/// `v` as one word of a shell command.
pub open spec fn quoted(v: Seq<char>) -> Seq<char> {
    seq!['\''] + quoted_chars(v) + seq!['\'']
}

/// What a shell reads in a word made of single-quoted stretches and
/// backslash-escaped characters. `open` tells whether a quote is open.
pub open spec fn shell_reads(s: Seq<char>, open: bool) -> Option<Seq<char>>
    decreases s.len(),
{
    if s.len() == 0 {
        if open {
            None
        } else {
            Some(seq![])
        }
    } else if s[0] == '\'' {
        shell_reads(s.skip(1), !open)
    } else if open {
        match shell_reads(s.skip(1), open) {
            Some(rest) => Some(seq![s[0]] + rest),
            None => None,
        }
    } else if s[0] == '\\' && s.len() >= 2 {
        match shell_reads(s.skip(2), open) {
            Some(rest) => Some(seq![s[1]] + rest),
            None => None,
        }
    } else {
        None
    }
}

/// `value` as one word of a shell command.
pub fn shell_single_quote(value: &str) -> (r: String)
    ensures
        r@ == quoted(value@),
{
    let v = to_chars(value);
    let mut r = String::new();
    r.push('\'');
    let mut i: usize = 0;
    assert(v@.skip(0) =~= v@);
    assert(r@ =~= seq!['\'']);
    while i < v.len()
        invariant
            i <= v@.len(),
            r@ + quoted_chars(v@.skip(i as int)) == seq!['\''] + quoted_chars(v@),
        decreases v@.len() - i,
    {
        let ghost had = r@;
        let c = v[i];
        if c == '\'' {
            r.push('\'');
            r.push('\\');
            r.push('\'');
            r.push('\'');
        } else {
            r.push(c);
        }
        proof {
            assert(v@.skip(i as int)[0] == c);
            assert(v@.skip(i as int).skip(1) =~= v@.skip(i + 1));
            assert(r@ =~= had + quoted_char(c));
            assert(r@ + quoted_chars(v@.skip(i + 1)) =~= had + (quoted_char(c) + quoted_chars(
                v@.skip(i + 1),
            )));
        }
        i += 1;
    }
    assert(v@.skip(i as int) =~= seq![]);
    assert(r@ + quoted_chars(v@.skip(i as int)) =~= r@);
    r.push('\'');
    assert(r@ =~= quoted(value@));
    r
}

/// A shell reads a quoted word back as the text that was quoted.
pub proof fn quoting_reads_back(v: Seq<char>)
    ensures
        shell_reads(quoted(v), false) == Some(v),
{
    lemma_quoted_chars_read_back(v);
    let s = quoted(v);
    assert(s[0] == '\'');
    assert(s.skip(1) =~= quoted_chars(v) + seq!['\'']);
}

proof fn lemma_quoted_chars_read_back(v: Seq<char>)
    ensures
        shell_reads(quoted_chars(v) + seq!['\''], true) == Some(v),
    decreases v.len(),
{
    let close = seq!['\''];
    if v.len() == 0 {
        assert(quoted_chars(v) + close =~= close);
        assert(close.skip(1) =~= seq![]);
        assert(v =~= seq![]);
        reveal_with_fuel(shell_reads, 3);
    } else {
        let rest = quoted_chars(v.skip(1)) + close;
        lemma_quoted_chars_read_back(v.skip(1));
        let s = quoted_chars(v) + close;
        assert(s =~= quoted_char(v[0]) + rest);
        assert(seq![v[0]] + v.skip(1) =~= v);
        if v[0] == '\'' {
            let s1 = s.skip(1);
            let s3 = s1.skip(2);
            assert(s[0] == '\'' && s1[0] == '\\' && s1[1] == '\'' && s3[0] == '\'');
            assert(s3.skip(1) =~= rest);
            assert(shell_reads(s3, false) == Some(v.skip(1)));
            assert(shell_reads(s1, false) == Some(v));
        } else {
            assert(s[0] == v[0]);
            assert(s.skip(1) =~= rest);
        }
    }
}

// ---------------------------------------------------------------------------
// The words of a command
// ---------------------------------------------------------------------------

/// Whether a character means nothing but itself to a shell, outside quotes.
pub open spec fn is_literal(c: char) -> bool {
    ||| 'a' <= c <= 'z'
    ||| 'A' <= c <= 'Z'
    ||| '0' <= c <= '9'
    ||| c == '_'
    ||| c == '-'
    ||| c == '.'
    ||| c == '/'
    ||| c == ':'
    ||| c == '='
    ||| c == '+'
    ||| c == ','
    ||| c == '@'
    ||| c == '%'
}

/// Whether a text is a word that means nothing but itself to a shell.
pub open spec fn is_literal_word(s: Seq<char>) -> bool {
    s.len() > 0 && forall|k: int| 0 <= k < s.len() ==> is_literal(#[trigger] s[k])
}

/// The word that is being read, as far as it was read.
pub open spec fn so_far(word: Option<Seq<char>>) -> Seq<char> {
    match word {
        Some(w) => w,
        None => seq![],
    }
}

/// `words` behind `front`.
pub open spec fn behind_words(front: Seq<Seq<char>>, words: Option<Seq<Seq<char>>>) -> Option<
    Seq<Seq<char>>,
> {
    match words {
        Some(rest) => Some(front + rest),
        None => None,
    }
}

/// The words that a shell reads in a simple command of literal characters, single
/// quotes and escaped characters, with spaces between the words; `word` is the word that
/// is being read, and `open` tells whether a quote is open.
pub open spec fn command_words(s: Seq<char>, word: Option<Seq<char>>, open: bool) -> Option<
    Seq<Seq<char>>,
>
    decreases s.len(),
{
    if s.len() == 0 {
        if open {
            None
        } else {
            match word {
                Some(w) => Some(seq![w]),
                None => Some(seq![]),
            }
        }
    } else if s[0] == '\'' {
        command_words(s.skip(1), Some(so_far(word)), !open)
    } else if open {
        command_words(s.skip(1), Some(so_far(word).push(s[0])), open)
    } else if s[0] == ' ' {
        match word {
            Some(w) => behind_words(seq![w], command_words(s.skip(1), None, false)),
            None => command_words(s.skip(1), None, false),
        }
    } else if s[0] == '\\' && s.len() >= 2 {
        command_words(s.skip(2), Some(so_far(word).push(s[1])), false)
    } else if is_literal(s[0]) {
        command_words(s.skip(1), Some(so_far(word).push(s[0])), false)
    } else {
        None
    }
}

/// Whether a shell reads `text` as the word `meaning`, whatever stands behind it.
#[verifier::opaque]
pub open spec fn reads_as_word(text: Seq<char>, meaning: Seq<char>) -> bool {
    forall|rest: Seq<char>| #[trigger]
        command_words(text + rest, None, false) == command_words(rest, Some(meaning), false)
}

/// What it is for a text to be read as a word.
pub proof fn lemma_read(text: Seq<char>, meaning: Seq<char>, rest: Seq<char>)
    requires
        reads_as_word(text, meaning),
    ensures
        command_words(text + rest, None, false) == command_words(rest, Some(meaning), false),
{
    reveal(reads_as_word);
}

/// A literal word goes on with the word that is being read.
pub proof fn lemma_literal_word(text: Seq<char>, rest: Seq<char>, word: Option<Seq<char>>)
    requires
        is_literal_word(text),
    ensures
        command_words(text + rest, word, false) == command_words(
            rest,
            Some(so_far(word) + text),
            false,
        ),
    decreases text.len(),
{
    let s = text + rest;
    assert(s[0] == text[0]);
    assert(is_literal(text[0]));
    let next = text.skip(1);
    assert(s.skip(1) =~= next + rest);
    let grown = Some(so_far(word).push(text[0]));
    if next.len() == 0 {
        assert(next + rest =~= rest);
        assert(so_far(word).push(text[0]) =~= so_far(word) + text);
    } else {
        assert forall|k: int| 0 <= k < next.len() implies is_literal(#[trigger] next[k]) by {
            assert(is_literal(text[k + 1]));
        }
        lemma_literal_word(next, rest, grown);
        assert(so_far(grown) + next =~= so_far(word) + text);
    }
}

/// A quoted text goes on with the word that is being read.
pub proof fn lemma_quoted_word(v: Seq<char>, rest: Seq<char>, word: Option<Seq<char>>)
    ensures
        command_words(quoted(v) + rest, word, false) == command_words(
            rest,
            Some(so_far(word) + v),
            false,
        ),
{
    let s = quoted(v) + rest;
    assert(s[0] == '\'');
    assert(s.skip(1) =~= quoted_chars(v) + (seq!['\''] + rest));
    lemma_quoted_chars_word(v, rest, so_far(word));
}

proof fn lemma_quoted_chars_word(v: Seq<char>, rest: Seq<char>, word: Seq<char>)
    ensures
        command_words(quoted_chars(v) + (seq!['\''] + rest), Some(word), true) == command_words(
            rest,
            Some(word + v),
            false,
        ),
    decreases v.len(),
{
    let close = seq!['\''] + rest;
    if v.len() == 0 {
        assert(quoted_chars(v) + close =~= close);
        assert(close.skip(1) =~= rest);
        assert(word + v =~= word);
    } else {
        let next = quoted_chars(v.skip(1)) + close;
        let s = quoted_chars(v) + close;
        assert(s =~= quoted_char(v[0]) + next);
        lemma_quoted_chars_word(v.skip(1), rest, word.push(v[0]));
        assert(word.push(v[0]) + v.skip(1) =~= word + v);
        if v[0] == '\'' {
            let s1 = s.skip(1);
            let s3 = s1.skip(2);
            assert(s[0] == '\'' && s1[0] == '\\' && s1[1] == '\'' && s3[0] == '\'');
            assert(s3.skip(1) =~= next);
            assert(command_words(s3, Some(word.push(v[0])), false) == command_words(
                next,
                Some(word.push(v[0])),
                true,
            ));
            assert(command_words(s1, Some(word), false) == command_words(
                s3,
                Some(word.push(v[0])),
                false,
            ));
        } else {
            assert(s[0] == v[0]);
            assert(s.skip(1) =~= next);
        }
    }
}

/// Words with spaces between them are read one after another.
pub proof fn lemma_joined_words(texts: Seq<Seq<char>>, meanings: Seq<Seq<char>>, rest: Seq<char>)
    requires
        texts.len() > 0,
        texts.len() == meanings.len(),
        forall|k: int|
            0 <= k < texts.len() ==> reads_as_word(#[trigger] texts[k], meanings[k]),
    ensures
        command_words(join(texts, " "@) + rest, None, false) == behind_words(
            meanings.drop_last(),
            command_words(rest, Some(meanings.last()), false),
        ),
    decreases texts.len(),
{
    reveal_strlit(" ");
    if texts.len() == 1 {
        lemma_read(texts[0], meanings[0], rest);
        assert(meanings.drop_last() =~= seq![]);
        if let Some(words) = command_words(rest, Some(meanings.last()), false) {
            assert(seq![] + words =~= words);
        }
    } else {
        let front = texts.drop_last();
        let known = meanings.drop_last();
        let tail = " "@ + texts.last() + rest;
        assert forall|k: int| 0 <= k < front.len() implies reads_as_word(
            #[trigger] front[k],
            known[k],
        ) by {
            assert(reads_as_word(texts[k], meanings[k]));
        }
        lemma_joined_words(front, known, tail);
        assert(join(texts, " "@) + rest =~= join(front, " "@) + tail);
        assert(tail[0] == ' ');
        assert(tail.skip(1) =~= texts.last() + rest);
        assert(reads_as_word(texts[texts.len() - 1], meanings[meanings.len() - 1]));
        lemma_read(texts.last(), meanings.last(), rest);
        let last = command_words(rest, Some(meanings.last()), false);
        assert(command_words(texts.last() + rest, None, false) == last);
        if let Some(words) = last {
            assert(known.drop_last() + (seq![known.last()] + words) =~= known + words);
        }
    }
}

} // verus!
