//! Texts with placeholders of two namespaces, filled in by one pass for each.

use vstd::prelude::*;
use vstd::string::*;

use crate::pairs::{Pair, lemma_entry_of, value_of};
use crate::template::{
    behind_front, deferred_expression, deferred_namespace, lemma_other_is_deferred, replacement,
    substituted, valid_name,
};
use crate::text::{
    find, find_from, lemma_find_from, lemma_find_skip, lemma_first_is_found, occurs_at,
    starts_with, trim,
};

verus! {

/// The namespace of a pass: inputs or arguments.
pub open spec fn namespace_of(of_inputs: bool) -> Seq<char> {
    if of_inputs {
        "inputs"@
    } else {
        "args"@
    }
}

/// The name that an expression asks for, if it asks for one of `namespace`.
pub open spec fn name_asked(expr: Seq<char>, namespace: Seq<char>) -> Option<Seq<char>> {
    let prefix = namespace + "."@;
    if starts_with(expr, prefix) && valid_name(expr.skip(prefix.len() as int)) {
        Some(expr.skip(prefix.len() as int))
    } else {
        None
    }
}

/// The value that an expression asks for, if it asks for one of `namespace` that is there.
pub open spec fn asked(expr: Seq<char>, namespace: Seq<char>, values: Seq<Pair>) -> Option<
    Seq<char>,
> {
    match name_asked(expr, namespace) {
        Some(name) => value_of(values, name),
        None => None,
    }
}

/// Whether each expression of a text asks for an input or an argument that is there.
pub open spec fn all_known(rest: Seq<char>, inputs: Seq<Pair>, args: Seq<Pair>) -> bool
    decreases rest.len(),
{
    match find(rest, "${{"@) {
        Some(start) if 0 <= start && start + 3 <= rest.len() => {
            let inner = rest.skip(start + 3);
            match find(inner, "}}"@) {
                Some(end) if 0 <= end && end + 2 <= inner.len() => {
                    let expr = trim(inner.take(end));
                    &&& asked(expr, "inputs"@, inputs) is Some || asked(expr, "args"@, args) is Some
                    &&& all_known(inner.skip(end + 2), inputs, args)
                },
                _ => false,
            }
        },
        _ => true,
    }
}

/// What stands in the place of an expression when the inputs, the arguments or both are
/// filled in. `kept` is the expression with its braces, byte for byte.
pub open spec fn in_place(
    expr: Seq<char>,
    kept: Seq<char>,
    inputs: Seq<Pair>,
    args: Seq<Pair>,
    fill_inputs: bool,
    fill_args: bool,
) -> Seq<char> {
    if fill_inputs && asked(expr, "inputs"@, inputs) is Some {
        asked(expr, "inputs"@, inputs)->0
    } else if fill_args && asked(expr, "args"@, args) is Some {
        asked(expr, "args"@, args)->0
    } else {
        kept
    }
}

/// A text with its inputs, its arguments or both filled in. All else stays.
pub open spec fn filled(
    rest: Seq<char>,
    inputs: Seq<Pair>,
    args: Seq<Pair>,
    fill_inputs: bool,
    fill_args: bool,
) -> Seq<char>
    decreases rest.len(),
{
    match find(rest, "${{"@) {
        Some(start) if 0 <= start && start + 3 <= rest.len() => {
            let inner = rest.skip(start + 3);
            match find(inner, "}}"@) {
                Some(end) if 0 <= end && end + 2 <= inner.len() => rest.take(start) + in_place(
                    trim(inner.take(end)),
                    rest.subrange(start, start + 3 + end + 2),
                    inputs,
                    args,
                    fill_inputs,
                    fill_args,
                ) + filled(inner.skip(end + 2), inputs, args, fill_inputs, fill_args),
                _ => rest,
            }
        },
        _ => rest,
    }
}

/// Whether a value has characters, and none of them could be part of a placeholder.
pub open spec fn is_clean(value: Seq<char>) -> bool {
    value.len() > 0 && forall|i: int|
        0 <= i < value.len() ==> #[trigger] value[i] != '$' && value[i] != '{' && value[i] != '}'
}

/// Whether all values are clean.
pub open spec fn all_clean(values: Seq<Pair>) -> bool {
    forall|i: int| 0 <= i < values.len() ==> is_clean((#[trigger] values[i]).1)
}

/// Whether no placeholder opens in `front`, nor at its end with what follows.
spec fn opens_nothing(front: Seq<char>) -> bool {
    &&& front.len() > 0
    &&& find(front, "${{"@) is None
    &&& front.last() != '$'
    &&& front.last() != '{'
}

proof fn lemma_find_behind(front: Seq<char>, rest: Seq<char>)
    requires
        opens_nothing(front),
    ensures
        find(front + rest, "${{"@) == match find(rest, "${{"@) {
            Some(k) => Some(k + front.len()),
            None => None,
        },
{
    let open = "${{"@;
    assert(open.len() == 3 && open[0] == '$' && open[1] == '{' && open[2] == '{') by {
        reveal_strlit("${{");
    }
    let all = front + rest;
    let n = front.len() as int;
    assert(all.skip(n) =~= rest);
    lemma_find_skip(all, open, n);
    lemma_find_from(all, open, n);
    lemma_find_from(front, open, 0);
    assert forall|j: int| 0 <= j < n implies !#[trigger] occurs_at(all, open, j) by {
        if occurs_at(all, open, j) {
            if j + 3 <= n {
                assert(all.subrange(j, j + 3) =~= front.subrange(j, j + 3));
                assert(occurs_at(front, open, j));
            } else {
                assert(all.subrange(j, j + 3)[n - 1 - j] == front[n - 1]);
            }
        }
    }
    match find_from(all, open, n) {
        Some(k) => {
            assert forall|j: int| 0 <= j < k implies !#[trigger] occurs_at(all, open, j) by {
                if j >= n {
                    assert(!occurs_at(all, open, j));
                }
            }
            lemma_first_is_found(all, open, k);
        },
        None => {
            lemma_find_from(all, open, 0);
            if let Some(k) = find(all, open) {
                assert(!occurs_at(all, open, k));
            }
        },
    }
}

proof fn lemma_value_closes(front: Seq<char>, value: Seq<char>)
    requires
        find(front, "${{"@) is None,
        is_clean(value),
    ensures
        opens_nothing(front + value),
{
    let open = "${{"@;
    assert(open.len() == 3 && open[0] == '$' && open[1] == '{' && open[2] == '{') by {
        reveal_strlit("${{");
    }
    let all = front + value;
    let n = front.len() as int;
    assert(all.last() == value.last());
    lemma_find_from(front, open, 0);
    lemma_find_from(all, open, 0);
    if let Some(k) = find(all, open) {
        if k + 3 <= n {
            assert(all.subrange(k, k + 3) =~= front.subrange(k, k + 3));
            assert(occurs_at(front, open, k));
        } else if k < n {
            assert(all.subrange(k, k + 3)[n - k] == value[0]);
        } else {
            assert(all.subrange(k, k + 3)[0] == value[k - n]);
        }
    }
}

proof fn lemma_pass_skips(
    text: Seq<char>,
    front: Seq<char>,
    rest: Seq<char>,
    namespace: Seq<char>,
    values: Seq<Pair>,
)
    requires
        opens_nothing(front),
    ensures
        substituted(text, front + rest, namespace, values, true) == behind_front(
            front,
            substituted(text, rest, namespace, values, true),
        ),
{
    let all = front + rest;
    let n = front.len() as int;
    lemma_find_behind(front, rest);
    lemma_find_from(rest, "${{"@, 0);
    match find(rest, "${{"@) {
        Some(start) => {
            reveal_strlit("${{");
            let inner = rest.skip(start + 3);
            assert(all.skip(n + start + 3) =~= inner);
            lemma_find_from(inner, "}}"@, 0);
            assert(all.take(n + start) =~= front + rest.take(start));
            match find(inner, "}}"@) {
                Some(end) => {
                    reveal_strlit("}}");
                    let kept = rest.subrange(start, start + 3 + end + 2);
                    assert(all.subrange(n + start, n + start + 3 + end + 2) =~= kept);
                    match replacement(
                        text,
                        trim(inner.take(end)),
                        kept,
                        namespace,
                        values,
                        true,
                    ) {
                        Ok(new) => {
                            let tail = substituted(
                                text,
                                inner.skip(end + 2),
                                namespace,
                                values,
                                true,
                            );
                            assert(all.take(n + start) + new =~= front + (rest.take(start) + new));
                            if let Ok(t) = tail {
                                assert(front + (rest.take(start) + new) + t =~= front + (rest.take(
                                    start,
                                ) + new + t));
                            }
                        },
                        Err(_) => {},
                    }
                },
                None => {},
            }
        },
        None => {},
    }
}

proof fn lemma_asked_is_clean(expr: Seq<char>, namespace: Seq<char>, values: Seq<Pair>)
    requires
        all_clean(values),
        asked(expr, namespace, values) is Some,
    ensures
        is_clean(asked(expr, namespace, values)->0),
{
    lemma_entry_of(values, name_asked(expr, namespace)->0);
}

proof fn lemma_asked_of_the_other(expr: Seq<char>, of_inputs: bool)
    requires
        name_asked(expr, namespace_of(!of_inputs)) is Some,
    ensures
        !starts_with(expr, namespace_of(of_inputs) + "."@),
        name_asked(expr, namespace_of(of_inputs)) is None,
        deferred_expression(namespace_of(of_inputs), expr),
{
    let other = namespace_of(!of_inputs);
    let name = name_asked(expr, other)->0;
    assert(expr =~= other + "."@ + name);
    assert(deferred_namespace(namespace_of(of_inputs), other));
    lemma_other_is_deferred(namespace_of(of_inputs), other, name);
}

/// The first expression of a text, when something else follows it.
proof fn lemma_kept_is_found(rest: Seq<char>, start: int, end: int, more: Seq<char>)
    requires
        find(rest, "${{"@) == Some(start),
        find(rest.skip(start + 3), "}}"@) == Some(end),
    ensures
        ({
            let kept = rest.subrange(start, start + 3 + end + 2);
            let all = rest.take(start) + kept + more;
            let inner = all.skip(start + 3);
            &&& 0 <= start && start + 3 <= rest.len()
            &&& 0 <= end && end + 2 <= rest.skip(start + 3).len()
            &&& find(rest.take(start), "${{"@) is None
            &&& find(all, "${{"@) == Some(start)
            &&& start + 3 <= all.len()
            &&& find(inner, "}}"@) == Some(end)
            &&& end + 2 <= inner.len()
            &&& inner.take(end) == rest.skip(start + 3).take(end)
            &&& all.take(start) == rest.take(start)
            &&& inner.skip(end + 2) == more
        }),
{
    let open = "${{"@;
    let close = "}}"@;
    assert(open.len() == 3 && close.len() == 2) by {
        reveal_strlit("${{");
        reveal_strlit("}}");
    }
    let old_inner = rest.skip(start + 3);
    lemma_find_from(rest, open, 0);
    lemma_find_from(old_inner, close, 0);
    let kept = rest.subrange(start, start + 3 + end + 2);
    let all = rest.take(start) + kept + more;
    let inner = all.skip(start + 3);
    let m = start + 3 + end + 2;
    assert forall|j: int| 0 <= j < m implies #[trigger] all[j] == rest[j] by {}
    assert(all.subrange(start, start + 3) =~= rest.subrange(start, start + 3));
    assert(occurs_at(all, open, start));
    assert forall|j: int| 0 <= j < start implies !#[trigger] occurs_at(all, open, j) by {
        assert(all.subrange(j, j + 3) =~= rest.subrange(j, j + 3));
        assert(!occurs_at(rest, open, j));
    }
    lemma_first_is_found(all, open, start);
    lemma_find_from(rest.take(start), open, 0);
    if let Some(k) = find(rest.take(start), open) {
        assert(rest.take(start).subrange(k, k + 3) =~= rest.subrange(k, k + 3));
        assert(occurs_at(rest, open, k));
    }
    assert forall|j: int| 0 <= j < end + 2 implies #[trigger] inner[j] == old_inner[j] by {
        assert(all[j + start + 3] == rest[j + start + 3]);
    }
    assert(inner.subrange(end, end + 2) =~= old_inner.subrange(end, end + 2));
    assert(occurs_at(inner, close, end));
    assert forall|j: int| 0 <= j < end implies !#[trigger] occurs_at(inner, close, j) by {
        assert(inner.subrange(j, j + 2) =~= old_inner.subrange(j, j + 2));
        assert(!occurs_at(old_inner, close, j));
    }
    lemma_first_is_found(inner, close, end);
    assert(inner.take(end) =~= old_inner.take(end));
    assert(all.take(start) =~= rest.take(start));
    assert(inner.skip(end + 2) =~= more);
}

/// A pass fills in its own placeholders and keeps those of the other namespace, byte for
/// byte: where each expression of a text asks for an input or an argument that is there, the
/// pass succeeds, and all else of the text stays.
pub proof fn a_pass_fills_in_its_own(
    text: Seq<char>,
    rest: Seq<char>,
    inputs: Seq<Pair>,
    args: Seq<Pair>,
    of_inputs: bool,
)
    requires
        all_known(rest, inputs, args),
    ensures
        substituted(
            text,
            rest,
            namespace_of(of_inputs),
            if of_inputs {
                inputs
            } else {
                args
            },
            true,
        ) == Ok::<Seq<char>, Seq<char>>(filled(rest, inputs, args, of_inputs, !of_inputs)),
    decreases rest.len(),
{
    let values = if of_inputs {
        inputs
    } else {
        args
    };
    let namespace = namespace_of(of_inputs);
    match find(rest, "${{"@) {
        Some(start) if 0 <= start && start + 3 <= rest.len() => {
            let inner = rest.skip(start + 3);
            let end = find(inner, "}}"@)->0;
            let expr = trim(inner.take(end));
            let tail = inner.skip(end + 2);
            a_pass_fills_in_its_own(text, tail, inputs, args, of_inputs);
            if asked(expr, namespace, values) is Some {
                if !of_inputs && name_asked(expr, "inputs"@) is Some {
                    lemma_asked_of_the_other(expr, false);
                }
            } else {
                lemma_asked_of_the_other(expr, of_inputs);
            }
        },
        _ => {},
    }
}

proof fn lemma_second_pass(
    text: Seq<char>,
    rest: Seq<char>,
    inputs: Seq<Pair>,
    args: Seq<Pair>,
    inputs_first: bool,
)
    requires
        all_known(rest, inputs, args),
        all_clean(inputs),
        all_clean(args),
    ensures
        substituted(
            text,
            filled(rest, inputs, args, inputs_first, !inputs_first),
            namespace_of(!inputs_first),
            if inputs_first {
                args
            } else {
                inputs
            },
            true,
        ) == Ok::<Seq<char>, Seq<char>>(filled(rest, inputs, args, true, true)),
        find(filled(rest, inputs, args, true, true), "${{"@) is None,
    decreases rest.len(),
{
    let values = if inputs_first {
        args
    } else {
        inputs
    };
    let namespace = namespace_of(!inputs_first);
    match find(rest, "${{"@) {
        Some(start) if 0 <= start && start + 3 <= rest.len() => {
            let inner = rest.skip(start + 3);
            let end = find(inner, "}}"@)->0;
            let expr = trim(inner.take(end));
            let tail = inner.skip(end + 2);
            let front = rest.take(start);
            let kept = rest.subrange(start, start + 3 + end + 2);
            let once = filled(tail, inputs, args, inputs_first, !inputs_first);
            let twice = filled(tail, inputs, args, true, true);
            lemma_second_pass(text, tail, inputs, args, inputs_first);
            lemma_kept_is_found(rest, start, end, once);
            let own = namespace_of(inputs_first);
            let own_values = if inputs_first {
                inputs
            } else {
                args
            };
            if asked(expr, own, own_values) is Some {
                let v = asked(expr, own, own_values)->0;
                lemma_asked_is_clean(expr, own, own_values);
                lemma_value_closes(front, v);
                lemma_pass_skips(text, front + v, once, namespace, values);
                lemma_find_behind(front + v, twice);
                if !inputs_first && name_asked(expr, "inputs"@) is Some {
                    lemma_asked_of_the_other(expr, false);
                }
                assert(filled(rest, inputs, args, inputs_first, !inputs_first) == front + v + once);
                assert(filled(rest, inputs, args, true, true) == front + v + twice);
            } else {
                let v = asked(expr, namespace, values)->0;
                lemma_asked_of_the_other(expr, inputs_first);
                lemma_asked_is_clean(expr, namespace, values);
                lemma_value_closes(front, v);
                lemma_find_behind(front + v, twice);
                assert(filled(rest, inputs, args, inputs_first, !inputs_first) == front + kept
                    + once);
                assert(filled(rest, inputs, args, true, true) == front + v + twice);
            }
        },
        _ => {
            reveal_strlit("${{");
            lemma_find_from(rest, "${{"@, 0);
        },
    }
}

/// The passes over inputs and over arguments may come in either order: where each expression
/// of a text asks for an input or an argument that is there, and the values are clean, both
/// passes succeed, the result is the same, and no placeholder is left in it.
pub proof fn passes_commute(text: Seq<char>, inputs: Seq<Pair>, args: Seq<Pair>)
    requires
        all_known(text, inputs, args),
        all_clean(inputs),
        all_clean(args),
    ensures
        ({
            let with_inputs = substituted(text, text, "inputs"@, inputs, true);
            let with_args = substituted(text, text, "args"@, args, true);
            &&& with_inputs is Ok
            &&& with_args is Ok
            &&& substituted(with_inputs->Ok_0, with_inputs->Ok_0, "args"@, args, true) == Ok::<
                Seq<char>,
                Seq<char>,
            >(filled(text, inputs, args, true, true))
            &&& substituted(with_args->Ok_0, with_args->Ok_0, "inputs"@, inputs, true) == Ok::<
                Seq<char>,
                Seq<char>,
            >(filled(text, inputs, args, true, true))
            &&& find(filled(text, inputs, args, true, true), "${{"@) is None
        }),
{
    a_pass_fills_in_its_own(text, text, inputs, args, true);
    a_pass_fills_in_its_own(text, text, inputs, args, false);
    let with_inputs = filled(text, inputs, args, true, false);
    let with_args = filled(text, inputs, args, false, true);
    lemma_second_pass(with_inputs, text, inputs, args, true);
    lemma_second_pass(with_args, text, inputs, args, false);
}

} // verus!
