//! Inputs of a fragment: their declarations, and the values a caller gives them.

use vstd::prelude::*;
use vstd::string::*;

use crate::error::{PlanError, outcome};
use crate::numbers::{is_number, lowered, reads_as_number, to_lower};
use crate::pairs::{Pair, entry_of, lemma_entry_is, lemma_entry_of, lookup, pairs, value_of};
use crate::strings::{cat3, cat4, same};
use crate::text::opt_text;
use crate::validate::first_error;

verus! {

/// The type that an input is declared with.
#[derive(Clone, Copy, Debug, PartialEq, Eq, Structural)]
pub enum InputType {
    String,
    Number,
    Boolean,
}

/// How a fragment declares an input.
#[derive(Debug, PartialEq, Eq)]
pub struct InputDeclaration {
    pub input_type: InputType,
    pub required: bool,
    pub default: Option<String>,
}

/// Whether a text is a value of a type.
pub open spec fn of_type(input_type: InputType, value: Seq<char>) -> bool {
    match input_type {
        InputType::String => true,
        InputType::Number => is_number(value),
        InputType::Boolean => lowered(value) == "true"@ || lowered(value) == "false"@,
    }
}

/// Why a value is refused for an input.
pub open spec fn type_error(name: Seq<char>, input_type: InputType, value: Seq<char>) -> Option<
    Seq<char>,
> {
    if of_type(input_type, value) {
        None
    } else if input_type == InputType::Number {
        Some("input '"@ + name + "' must be a number"@)
    } else {
        Some("input '"@ + name + "' must be a boolean"@)
    }
}

/// Accepts a value for an input if it is of the input's type.
pub fn validate_input_type(name: &str, input_type: InputType, value: &str) -> (r: Result<
    (),
    PlanError,
>)
    ensures
        outcome(r, type_error(name@, input_type, value@)),
{
    match input_type {
        InputType::String => Ok(()),
        InputType::Number => if reads_as_number(value) {
            Ok(())
        } else {
            Err(PlanError::new(cat3("input '", name, "' must be a number")))
        },
        InputType::Boolean => {
            let word = to_lower(value);
            if same(word.as_str(), "true") || same(word.as_str(), "false") {
                Ok(())
            } else {
                Err(PlanError::new(cat3("input '", name, "' must be a boolean")))
            }
        },
    }
}

/// The names of the declared inputs.
pub open spec fn declared(decls: Seq<(String, InputDeclaration)>) -> Seq<Seq<char>> {
    decls.map_values(|d: (String, InputDeclaration)| d.0@)
}

/// Why the first of `n` declarations that contradicts itself is refused.
pub open spec fn contradiction(decls: Seq<(String, InputDeclaration)>, n: nat) -> Option<
    Seq<char>,
>
    decreases n,
{
    if n == 0 {
        None
    } else {
        first_error(
            contradiction(decls, (n - 1) as nat),
            if decls[n - 1].1.required && decls[n - 1].1.default is Some {
                Some(
                    "input '"@ + decls[n - 1].0@
                        + "' cannot set both 'required: true' and 'default'"@,
                )
            } else {
                None
            },
        )
    }
}

/// Why the first of `n` values for an input that is not declared is refused.
pub open spec fn undeclared(
    path: Seq<char>,
    decls: Seq<(String, InputDeclaration)>,
    given: Seq<Pair>,
    n: nat,
) -> Option<Seq<char>>
    decreases n,
{
    if n == 0 {
        None
    } else {
        first_error(
            undeclared(path, decls, given, (n - 1) as nat),
            if declared(decls).contains(given[n - 1].0) {
                None
            } else {
                Some(
                    "unexpected input '"@ + given[n - 1].0 + "' not declared by fragment "@ + path,
                )
            },
        )
    }
}

/// The value that an input has: what the caller gives, or the default if the caller
/// gives nothing or the word `__default__`.
pub open spec fn effective(decl: (String, InputDeclaration), given: Seq<Pair>) -> Option<
    Seq<char>,
> {
    match value_of(given, decl.0@) {
        Some(v) if v != "__default__"@ => Some(v),
        _ => opt_text(decl.1.default),
    }
}

/// What an input resolves to: its value if it has one, or why it is refused.
pub open spec fn resolved_input(decl: (String, InputDeclaration), given: Seq<Pair>) -> Result<
    Seq<Pair>,
    Seq<char>,
> {
    match effective(decl, given) {
        Some(v) => match type_error(decl.0@, decl.1.input_type, v) {
            Some(e) => Err(e),
            None => Ok(seq![(decl.0@, v)]),
        },
        None => if decl.1.required {
            Err("missing required input '"@ + decl.0@ + "'"@)
        } else {
            Ok(seq![])
        },
    }
}

/// What the first `n` inputs resolve to, or why the first of them that is refused is
/// refused.
pub open spec fn resolved_inputs(
    decls: Seq<(String, InputDeclaration)>,
    given: Seq<Pair>,
    n: nat,
) -> Result<Seq<Pair>, Seq<char>>
    decreases n,
{
    if n == 0 {
        Ok(seq![])
    } else {
        match resolved_inputs(decls, given, (n - 1) as nat) {
            Err(e) => Err(e),
            Ok(front) => match resolved_input(decls[n - 1], given) {
                Err(e) => Err(e),
                Ok(more) => Ok(front + more),
            },
        }
    }
}

/// What the inputs of a fragment resolve to, or why the call is refused.
pub open spec fn fragment_inputs(
    path: Seq<char>,
    decls: Seq<(String, InputDeclaration)>,
    given: Seq<Pair>,
) -> Result<Seq<Pair>, Seq<char>> {
    match first_error(
        contradiction(decls, decls.len()),
        undeclared(path, decls, given, given.len()),
    ) {
        Some(e) => Err(e),
        None => resolved_inputs(decls, given, decls.len()),
    }
}

proof fn lemma_contradiction_stays(decls: Seq<(String, InputDeclaration)>, n: nat, m: nat)
    requires
        n <= m,
        contradiction(decls, n) is Some,
    ensures
        contradiction(decls, m) == contradiction(decls, n),
    decreases m,
{
    if n < m {
        lemma_contradiction_stays(decls, n, (m - 1) as nat);
    }
}

proof fn lemma_undeclared_stays(
    path: Seq<char>,
    decls: Seq<(String, InputDeclaration)>,
    given: Seq<Pair>,
    n: nat,
    m: nat,
)
    requires
        n <= m,
        undeclared(path, decls, given, n) is Some,
    ensures
        undeclared(path, decls, given, m) == undeclared(path, decls, given, n),
    decreases m,
{
    if n < m {
        lemma_undeclared_stays(path, decls, given, n, (m - 1) as nat);
    }
}

proof fn lemma_resolution_error_stays(
    decls: Seq<(String, InputDeclaration)>,
    given: Seq<Pair>,
    n: nat,
    m: nat,
)
    requires
        n <= m,
        resolved_inputs(decls, given, n) is Err,
    ensures
        resolved_inputs(decls, given, m) == resolved_inputs(decls, given, n),
    decreases m,
{
    if n < m {
        lemma_resolution_error_stays(decls, given, n, (m - 1) as nat);
    }
}

/// Whether an input of that name is declared.
fn is_declared(decls: &Vec<(String, InputDeclaration)>, name: &str) -> (r: bool)
    ensures
        r == declared(decls@).contains(name@),
{
    let ghost all = declared(decls@);
    let mut i: usize = 0;
    while i < decls.len()
        invariant
            i <= decls@.len(),
            all == declared(decls@),
            forall|j: int| 0 <= j < i ==> #[trigger] all[j] != name@,
        decreases decls@.len() - i,
    {
        assert(all[i as int] == decls@[i as int].0@);
        if same(decls[i].0.as_str(), name) {
            return true;
        }
        i += 1;
    }
    false
}

/// Resolves the inputs of the fragment at `path` against what a caller gives.
///
/// No declaration may be both required and have a default, and the caller may give
/// declared inputs only. An input that is not given, or is given as `__default__`,
/// takes its default. Any other text is taken as it is, the empty text too.
pub fn resolve_fragment_inputs(
    path: &str,
    declarations: &Vec<(String, InputDeclaration)>,
    with: &Vec<(String, String)>,
) -> (r: Result<Vec<(String, String)>, PlanError>)
    ensures
        match r {
            Ok(resolved) => fragment_inputs(path@, declarations@, pairs(with@)) == Ok::<
                Seq<Pair>,
                Seq<char>,
            >(pairs(resolved@)),
            Err(e) => fragment_inputs(path@, declarations@, pairs(with@)) == Err::<
                Seq<Pair>,
                Seq<char>,
            >(e@),
        },
{
    let ghost given = pairs(with@);
    let mut i: usize = 0;
    while i < declarations.len()
        invariant
            i <= declarations@.len(),
            given == pairs(with@),
            contradiction(declarations@, i as nat) is None,
        decreases declarations@.len() - i,
    {
        if declarations[i].1.required && declarations[i].1.default.is_some() {
            proof {
                lemma_contradiction_stays(
                    declarations@,
                    (i + 1) as nat,
                    declarations@.len(),
                );
            }
            return Err(
                PlanError::new(
                    cat3(
                        "input '",
                        declarations[i].0.as_str(),
                        "' cannot set both 'required: true' and 'default'",
                    ),
                ),
            );
        }
        i += 1;
    }
    let mut k: usize = 0;
    while k < with.len()
        invariant
            k <= with@.len(),
            given == pairs(with@),
            contradiction(declarations@, declarations@.len()) is None,
            undeclared(path@, declarations@, given, k as nat) is None,
        decreases with@.len() - k,
    {
        assert(given[k as int].0 == with@[k as int].0@);
        if !is_declared(declarations, with[k].0.as_str()) {
            proof {
                lemma_undeclared_stays(
                    path@,
                    declarations@,
                    given,
                    (k + 1) as nat,
                    given.len(),
                );
            }
            return Err(
                PlanError::new(
                    cat4(
                        "unexpected input '",
                        with[k].0.as_str(),
                        "' not declared by fragment ",
                        path,
                    ),
                ),
            );
        }
        k += 1;
    }
    assert(given.len() == with@.len());
    let mut resolved: Vec<(String, String)> = Vec::new();
    let mut d: usize = 0;
    assert(pairs(resolved@) =~= seq![]);
    while d < declarations.len()
        invariant
            d <= declarations@.len(),
            given == pairs(with@),
            contradiction(declarations@, declarations@.len()) is None,
            undeclared(path@, declarations@, given, given.len()) is None,
            resolved_inputs(declarations@, given, d as nat) == Ok::<Seq<Pair>, Seq<char>>(
                pairs(resolved@),
            ),
        decreases declarations@.len() - d,
    {
        let ghost had = pairs(resolved@);
        let ghost decl = declarations@[d as int];
        let name = declarations[d].0.as_str();
        let caller_value = lookup(with, name);
        let value: Option<String> = match caller_value {
            Some(v) => if same(v.as_str(), "__default__") {
                declarations[d].1.default.clone()
            } else {
                Some(v)
            },
            None => declarations[d].1.default.clone(),
        };
        assert(opt_text(value) == effective(decl, given));
        match value {
            Some(v) => {
                match validate_input_type(name, declarations[d].1.input_type, v.as_str()) {
                    Ok(()) => {},
                    Err(e) => {
                        proof {
                            lemma_resolution_error_stays(
                                declarations@,
                                given,
                                (d + 1) as nat,
                                declarations@.len(),
                            );
                        }
                        return Err(e);
                    },
                }
                resolved.push((declarations[d].0.clone(), v));
                assert(pairs(resolved@) =~= had + seq![(decl.0@, v@)]);
            },
            None => {
                if declarations[d].1.required {
                    proof {
                        lemma_resolution_error_stays(
                            declarations@,
                            given,
                            (d + 1) as nat,
                            declarations@.len(),
                        );
                    }
                    return Err(
                        PlanError::new(cat3("missing required input '", name, "'")),
                    );
                }
                assert(had + seq![] =~= had);
            },
        }
        d += 1;
    }
    Ok(resolved)
}

// ---------------------------------------------------------------------------
// Laws
// ---------------------------------------------------------------------------

/// Giving an input as `__default__` is the same as not giving it.
pub proof fn sentinel_means_omitted(decl: (String, InputDeclaration), given: Seq<Pair>)
    requires
        value_of(given, decl.0@) == Some("__default__"@),
    ensures
        resolved_input(decl, given) == resolved_input(decl, seq![]),
{
}

/// An empty text that a caller gives is taken as it is, and satisfies an input that
/// is required.
pub proof fn empty_text_is_a_value(decl: (String, InputDeclaration), given: Seq<Pair>)
    requires
        value_of(given, decl.0@) == Some(Seq::<char>::empty()),
        decl.1.input_type == InputType::String,
    ensures
        resolved_input(decl, given) == Ok::<Seq<Pair>, Seq<char>>(
            seq![(decl.0@, Seq::<char>::empty())],
        ),
{
    reveal_strlit("__default__");
    assert("__default__"@.len() > 0);
}

/// Among the resolved inputs each declared input has its effective value, if it has
/// one, and no other; every value is of its declared type, and an input that is
/// required has one.
pub proof fn resolution_is_faithful(
    decls: Seq<(String, InputDeclaration)>,
    given: Seq<Pair>,
    n: nat,
    i: int,
)
    requires
        n <= decls.len(),
        declared(decls).no_duplicates(),
        resolved_inputs(decls, given, n) is Ok,
        0 <= i < decls.len(),
    ensures
        i < n ==> value_of(resolved_inputs(decls, given, n)->Ok_0, decls[i].0@) == effective(
            decls[i],
            given,
        ),
        i >= n ==> value_of(resolved_inputs(decls, given, n)->Ok_0, decls[i].0@) is None,
        i < n ==> (effective(decls[i], given) matches Some(v) ==> of_type(
            decls[i].1.input_type,
            v,
        )),
        i < n && decls[i].1.required ==> effective(decls[i], given) is Some,
    decreases n,
{
    if n == 0 {
    } else {
        let front = resolved_inputs(decls, given, (n - 1) as nat)->Ok_0;
        let more = resolved_input(decls[n - 1], given)->Ok_0;
        resolution_is_faithful(decls, given, (n - 1) as nat, i);
        assert(declared(decls)[i] == decls[i].0@);
        assert(declared(decls)[n - 1] == decls[n - 1].0@);
        lemma_value_in_sum(front, more, decls[i].0@);
        if i != n - 1 {
            assert(decls[i].0@ != decls[n - 1].0@);
            lemma_entry_of(more, decls[i].0@);
        } else {
            lemma_entry_of(more, decls[i].0@);
            if more.len() > 0 {
                assert(more[0].0 == decls[i].0@);
                lemma_entry_is(more, decls[i].0@, 0);
            }
        }
    }
}

proof fn lemma_value_in_sum(a: Seq<Pair>, b: Seq<Pair>, name: Seq<char>)
    ensures
        value_of(a + b, name) == match value_of(a, name) {
            Some(v) => Some(v),
            None => value_of(b, name),
        },
{
    lemma_entry_of(a, name);
    lemma_entry_of(b, name);
    match entry_of(a, name) {
        Some(k) => {
            assert forall|j: int| 0 <= j < k implies (#[trigger] (a + b)[j]).0 != name by {
                assert(a[j].0 != name);
            }
            lemma_entry_is(a + b, name, k);
        },
        None => match entry_of(b, name) {
            Some(k) => {
                assert forall|j: int| 0 <= j < a.len() + k implies (#[trigger] (a + b)[j]).0
                    != name by {
                    if j < a.len() {
                        assert(a[j].0 != name);
                    } else {
                        assert(b[j - a.len()].0 != name);
                    }
                }
                lemma_entry_is(a + b, name, a.len() + k);
            },
            None => {
                lemma_entry_of(a + b, name);
                if let Some(j) = entry_of(a + b, name) {
                    if j < a.len() {
                        assert(a[j].0 != name);
                    } else {
                        assert(b[j - a.len()].0 != name);
                    }
                }
            },
        },
    }
}

} // verus!
