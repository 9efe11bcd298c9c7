//! Entries that are kept by key, in the order of their keys.

use vstd::prelude::*;
use vstd::string::*;

use crate::strings::{same, to_chars};

verus! {

/// Whether a text comes before another, character by character.
pub open spec fn precedes(a: Seq<char>, b: Seq<char>) -> bool
    decreases a.len(),
{
    if b.len() == 0 {
        false
    } else if a.len() == 0 {
        true
    } else if a[0] != b[0] {
        (a[0] as int) < (b[0] as int)
    } else {
        precedes(a.skip(1), b.skip(1))
    }
}

proof fn lemma_not_before_itself(a: Seq<char>)
    ensures
        !precedes(a, a),
    decreases a.len(),
{
    if a.len() > 0 {
        lemma_not_before_itself(a.skip(1));
    }
}

proof fn lemma_one_comes_first(a: Seq<char>, b: Seq<char>)
    requires
        a != b,
    ensures
        precedes(a, b) != precedes(b, a),
    decreases a.len(),
{
    if a.len() == 0 || b.len() == 0 {
        if a.len() == b.len() {
            assert(a =~= b);
        }
    } else if a[0] != b[0] {
        assert(a[0] as int != b[0] as int);
    } else {
        if a.skip(1) == b.skip(1) {
            assert(a =~= seq![a[0]] + a.skip(1));
            assert(b =~= seq![b[0]] + b.skip(1));
            assert(false);
        }
        lemma_one_comes_first(a.skip(1), b.skip(1));
    }
}

proof fn lemma_precedes_chain(a: Seq<char>, b: Seq<char>, c: Seq<char>)
    requires
        precedes(a, b),
        precedes(b, c),
    ensures
        precedes(a, c),
    decreases a.len(),
{
    if a.len() > 0 && a[0] == b[0] && b[0] == c[0] {
        lemma_precedes_chain(a.skip(1), b.skip(1), c.skip(1));
    }
}

/// Whether a text comes before another.
pub fn text_precedes(a: &str, b: &str) -> (r: bool)
    ensures
        r == precedes(a@, b@),
{
    let x = to_chars(a);
    let y = to_chars(b);
    let mut i: usize = 0;
    assert(a@.skip(0) =~= a@ && b@.skip(0) =~= b@);
    while i < x.len() && i < y.len()
        invariant
            i <= x@.len(),
            i <= y@.len(),
            x@ == a@,
            y@ == b@,
            precedes(a@, b@) == precedes(a@.skip(i as int), b@.skip(i as int)),
        decreases x@.len() - i,
    {
        if x[i] != y[i] {
            return x[i] < y[i];
        }
        assert(a@.skip(i as int).skip(1) =~= a@.skip(i + 1));
        assert(b@.skip(i as int).skip(1) =~= b@.skip(i + 1));
        i += 1;
    }
    i < y.len()
}

/// Whether entries stand in the order of their keys, none of which occurs twice.
pub open spec fn in_key_order<T>(entries: Seq<(String, T)>) -> bool {
    forall|i: int, j: int|
        0 <= i < j < entries.len() ==> precedes(
            (#[trigger] entries[i]).0@,
            (#[trigger] entries[j]).0@,
        )
}

/// The value under a key.
pub open spec fn value_under<T>(entries: Seq<(String, T)>, key: Seq<char>) -> Option<T>
    decreases entries.len(),
{
    if entries.len() == 0 {
        None
    } else if entries[0].0@ == key {
        Some(entries[0].1)
    } else {
        value_under(entries.skip(1), key)
    }
}

proof fn lemma_value_under_parts<T>(
    a: Seq<(String, T)>,
    b: Seq<(String, T)>,
    key: Seq<char>,
)
    ensures
        value_under(a + b, key) == match value_under(a, key) {
            Some(v) => Some(v),
            None => value_under(b, key),
        },
    decreases a.len(),
{
    if a.len() == 0 {
        assert(a + b =~= b);
    } else {
        assert((a + b).skip(1) =~= a.skip(1) + b);
        lemma_value_under_parts(a.skip(1), b, key);
    }
}

proof fn lemma_no_value_under<T>(entries: Seq<(String, T)>, key: Seq<char>)
    requires
        forall|i: int| 0 <= i < entries.len() ==> (#[trigger] entries[i]).0@ != key,
    ensures
        value_under(entries, key) is None,
    decreases entries.len(),
{
    if entries.len() > 0 {
        assert(entries[0].0@ != key);
        assert forall|i: int| 0 <= i < entries.skip(1).len() implies (#[trigger] entries.skip(
            1,
        )[i]).0@ != key by {
            assert(entries[i + 1].0@ != key);
        }
        lemma_no_value_under(entries.skip(1), key);
    }
}

/// Puts a value under a key: in place of the value that the key has, or as a new entry at
/// its place in the order.
pub fn put_entry<T>(entries: &mut Vec<(String, T)>, key: String, value: T)
    requires
        in_key_order(old(entries)@),
    ensures
        in_key_order(final(entries)@),
        forall|k: Seq<char>| #[trigger]
            value_under(final(entries)@, k) == if k == key@ {
                Some(value)
            } else {
                value_under(old(entries)@, k)
            },
{
    let ghost before = entries@;
    let mut i: usize = 0;
    while i < entries.len() && text_precedes(entries[i].0.as_str(), key.as_str())
        invariant
            i <= entries@.len(),
            entries@ == before,
            in_key_order(before),
            forall|j: int| 0 <= j < i ==> precedes((#[trigger] before[j]).0@, key@),
        ensures
            i <= entries@.len(),
            entries@ == before,
            forall|j: int| 0 <= j < i ==> precedes((#[trigger] before[j]).0@, key@),
            i < entries@.len() ==> !precedes(before[i as int].0@, key@),
        decreases entries@.len() - i,
    {
        i += 1;
    }
    let found = i < entries.len() && same(entries[i].0.as_str(), key.as_str());
    let ghost name = key@;
    let ghost given = value;
    if found {
        entries.remove(i);
    }
    entries.insert(i, (key, value));
    proof {
        let front = before.take(i as int);
        let rest = if found {
            before.skip(i + 1)
        } else {
            before.skip(i as int)
        };
        let had = if found {
            seq![before[i as int]]
        } else {
            seq![]
        };
        let put = (key, given);
        assert(entries@ =~= front + (seq![put] + rest));
        assert(before =~= front + (had + rest));
        assert forall|j: int| 0 <= j < front.len() implies (#[trigger] front[j]).0@ != name by {
            assert(precedes(before[j].0@, name));
            lemma_not_before_itself(name);
        }
        assert forall|j: int| 0 <= j < rest.len() implies precedes(
            name,
            (#[trigger] rest[j]).0@,
        ) by {
            if found {
                assert(rest[j] == before[i + 1 + j]);
                assert(precedes(before[i as int].0@, before[i + 1 + j].0@));
            } else {
                assert(rest[j] == before[i + j]);
                lemma_one_comes_first(before[i as int].0@, name);
                if j > 0 {
                    lemma_precedes_chain(name, before[i as int].0@, before[i + j].0@);
                }
            }
        }
        assert forall|j: int| 0 <= j < rest.len() implies (#[trigger] rest[j]).0@ != name by {
            lemma_not_before_itself(name);
        }
        lemma_no_value_under(front, name);
        lemma_no_value_under(rest, name);
        assert forall|k: Seq<char>| #[trigger]
            value_under(entries@, k) == if k == name {
                Some(given)
            } else {
                value_under(before, k)
            } by {
            lemma_value_under_parts(front, seq![put] + rest, k);
            lemma_value_under_parts(seq![put], rest, k);
            lemma_value_under_parts(front, had + rest, k);
            lemma_value_under_parts(had, rest, k);
            reveal_with_fuel(value_under, 2);
            assert(seq![put].skip(1) =~= Seq::<(String, T)>::empty());
            assert(value_under(seq![put], k) == if k == name {
                Some(given)
            } else {
                None
            });
            if found {
                assert(had.skip(1) =~= Seq::<(String, T)>::empty());
            }
        }
        assert forall|a: int, b: int| 0 <= a < b < entries@.len() implies precedes(
            (#[trigger] entries@[a]).0@,
            (#[trigger] entries@[b]).0@,
        ) by {
            let shift: int = if found {
                0
            } else {
                1
            };
            if b < i {
                assert(precedes(before[a].0@, before[b].0@));
            } else if b == i {
                assert(precedes(before[a].0@, name));
            } else if a > i {
                assert(entries@[a] == before[a - shift] && entries@[b] == before[b - shift]);
                assert(precedes(before[a - shift].0@, before[b - shift].0@));
            } else if a == i {
                assert(entries@[b] == rest[b - i - 1]);
                assert(precedes(name, rest[b - i - 1].0@));
            } else {
                assert(entries@[b] == rest[b - i - 1]);
                assert(precedes(before[a].0@, name));
                lemma_precedes_chain(before[a].0@, name, rest[b - i - 1].0@);
            }
        }
    }
}

} // verus!
