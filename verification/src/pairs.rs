//! Lists of names with their values, looked up by name.

use vstd::prelude::*;
use vstd::string::*;

use crate::strings::same;

verus! {

/// A name and its value.
pub type Pair = (Seq<char>, Seq<char>);

/// The contents of a list of name and value pairs.
pub open spec fn pairs(v: Seq<(String, String)>) -> Seq<Pair> {
    v.map_values(|p: (String, String)| (p.0@, p.1@))
}

/// The first entry with the name `name`.
pub open spec fn entry_of(env: Seq<Pair>, name: Seq<char>) -> Option<int>
    decreases env.len(),
{
    if env.len() == 0 {
        None
    } else if env[0].0 == name {
        Some(0int)
    } else {
        match entry_of(env.skip(1), name) {
            Some(k) => Some(k + 1),
            None => None,
        }
    }
}

/// The value of `name`.
pub open spec fn value_of(env: Seq<Pair>, name: Seq<char>) -> Option<Seq<char>> {
    match entry_of(env, name) {
        Some(k) => Some(env[k].1),
        None => None,
    }
}

/// The names, in order.
pub open spec fn names(env: Seq<Pair>) -> Seq<Seq<char>> {
    env.map_values(|p: Pair| p.0)
}

/// `entry_of` finds the first entry with the name.
pub proof fn lemma_entry_of(env: Seq<Pair>, name: Seq<char>)
    ensures
        match entry_of(env, name) {
            Some(k) => 0 <= k < env.len() && env[k].0 == name && forall|j: int|
                0 <= j < k ==> (#[trigger] env[j]).0 != name,
            None => forall|j: int| 0 <= j < env.len() ==> (#[trigger] env[j]).0 != name,
        },
    decreases env.len(),
{
    if env.len() > 0 && env[0].0 != name {
        lemma_entry_of(env.skip(1), name);
        assert forall|j: int| 1 <= j < env.len() implies env[j] == #[trigger] env.skip(1)[j - 1] by {}
        match entry_of(env.skip(1), name) {
            Some(k) => {
                assert forall|j: int| 0 <= j < k + 1 implies (#[trigger] env[j]).0 != name by {
                    if j > 0 {
                        assert(env.skip(1)[j - 1].0 != name);
                    }
                }
            },
            None => {
                assert forall|j: int| 0 <= j < env.len() implies (#[trigger] env[j]).0 != name by {
                    if j > 0 {
                        assert(env.skip(1)[j - 1].0 != name);
                    }
                }
            },
        }
    }
}

/// The first entry with a name is found by what tells it apart.
pub proof fn lemma_entry_is(env: Seq<Pair>, name: Seq<char>, k: int)
    requires
        0 <= k < env.len(),
        env[k].0 == name,
        forall|j: int| 0 <= j < k ==> (#[trigger] env[j]).0 != name,
    ensures
        entry_of(env, name) == Some(k),
{
    lemma_entry_of(env, name);
    match entry_of(env, name) {
        Some(n) => {
            if n < k {
                assert(env[n].0 != name);
            }
        },
        None => {
            assert(env[k].0 != name);
        },
    }
}

/// The position of the first entry with the name `name`.
pub fn index_of(list: &Vec<(String, String)>, name: &str) -> (r: Option<usize>)
    ensures
        match r {
            Some(k) => entry_of(pairs(list@), name@) == Some(k as int) && k < list@.len(),
            None => entry_of(pairs(list@), name@) is None,
        },
{
    let ghost env = pairs(list@);
    let mut k: usize = 0;
    while k < list.len()
        invariant
            k <= list@.len(),
            env == pairs(list@),
            forall|j: int| 0 <= j < k ==> (#[trigger] env[j]).0 != name@,
        decreases list@.len() - k,
    {
        assert(env[k as int].0 == list@[k as int].0@);
        if same(list[k].0.as_str(), name) {
            proof {
                lemma_entry_is(env, name@, k as int);
            }
            return Some(k);
        }
        k += 1;
    }
    proof {
        lemma_entry_of(env, name@);
    }
    None
}

/// The value of `name`.
pub fn lookup(list: &Vec<(String, String)>, name: &str) -> (r: Option<String>)
    ensures
        match r {
            Some(v) => value_of(pairs(list@), name@) == Some(v@),
            None => value_of(pairs(list@), name@) is None,
        },
{
    match index_of(list, name) {
        Some(k) => Some(list[k].1.clone()),
        None => None,
    }
}

/// The same names and values once more.
pub fn cloned_pairs(list: &Vec<(String, String)>) -> (r: Vec<(String, String)>)
    ensures
        pairs(r@) == pairs(list@),
{
    let ghost all = pairs(list@);
    let mut r: Vec<(String, String)> = Vec::new();
    assert(pairs(r@) =~= all.take(0));
    let mut i: usize = 0;
    while i < list.len()
        invariant
            i <= list@.len(),
            all == pairs(list@),
            pairs(r@) == all.take(i as int),
        decreases list@.len() - i,
    {
        let ghost had = pairs(r@);
        r.push((list[i].0.clone(), list[i].1.clone()));
        assert(pairs(r@) =~= had.push(all[i as int]));
        assert(pairs(r@) =~= all.take(i + 1));
        i += 1;
    }
    assert(all.take(i as int) =~= all);
    r
}

} // verus!
