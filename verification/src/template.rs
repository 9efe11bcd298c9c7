//! Filling in `${{ }}` expressions, and steps that are repeated by `for:`.

use vstd::prelude::*;
use vstd::string::*;

use crate::error::PlanError;
use crate::pairs::{Pair, lookup, pairs, value_of};
use crate::strings::{
    cat2, cat3, cat5, same, search, slice, text_after, text_before, to_chars, trimmed,
    without_prefix,
};
use crate::text::{
    after, before, find, find_char, is_space, lemma_find_from, lemma_find_skip, occurs_at,
    starts_with, trim, trim_end, trim_start,
};
use crate::value::{
    Entry, EntryView, Node, NodeView, entry_views, lemma_mapping_view, lemma_sequence_view,
    value_views,
};

verus! {

// ---------------------------------------------------------------------------
// Names
// ---------------------------------------------------------------------------

/// Whether a character may stand in the name of an input or argument.
pub open spec fn is_name_char(c: char) -> bool {
    'a' <= c <= 'z' || 'A' <= c <= 'Z' || '0' <= c <= '9' || c == '_' || c == '-'
}

/// Whether `name` can be the name of an input or argument.
pub open spec fn valid_name(name: Seq<char>) -> bool {
    name.len() > 0 && forall|i: int| 0 <= i < name.len() ==> is_name_char(#[trigger] name[i])
}

/// Whether `name` can be the name of an input or argument: letters, digits, `_` and
/// `-`, at least one.
pub fn is_valid_namespace_name(name: &str) -> (r: bool)
    ensures
        r == valid_name(name@),
{
    let v = to_chars(name);
    let mut i: usize = 0;
    while i < v.len()
        invariant
            i <= v@.len(),
            v@ == name@,
            forall|j: int| 0 <= j < i ==> is_name_char(#[trigger] v@[j]),
        decreases v@.len() - i,
    {
        let c = v[i];
        if !(('a' <= c && c <= 'z') || ('A' <= c && c <= 'Z') || ('0' <= c && c <= '9') || c == '_'
            || c == '-') {
            assert(!is_name_char(name@[i as int]));
            return false;
        }
        i += 1;
    }
    v.len() > 0
}

/// Whether expressions of `other` are left for a later pass that fills in that
/// namespace.
pub open spec fn deferred_namespace(active: Seq<char>, other: Seq<char>) -> bool {
    (active == "inputs"@ && other == "args"@) || (active == "args"@ && other == "inputs"@)
}

/// Whether expressions of `namespace` are left for a later pass.
pub fn is_deferred_namespace(active_namespace: &str, namespace: &str) -> (r: bool)
    ensures
        r == deferred_namespace(active_namespace@, namespace@),
{
    (same(active_namespace, "inputs") && same(namespace, "args")) || (same(
        active_namespace,
        "args",
    ) && same(namespace, "inputs"))
}

/// Whether an expression is left for a later pass.
pub open spec fn deferred_expression(active: Seq<char>, expr: Seq<char>) -> bool {
    match after(expr, '.') {
        Some(name) => {
            let namespace = before(expr, '.');
            namespace != active && deferred_namespace(active, namespace) && valid_name(name)
        },
        None => false,
    }
}

/// Whether an expression is left for a later pass.
pub fn is_deferred_namespace_expression(active_namespace: &str, expr: &str) -> (r: bool)
    ensures
        r == deferred_expression(active_namespace@, expr@),
{
    match text_after(expr, '.') {
        Some(name) => {
            let namespace = text_before(expr, '.');
            !same(namespace.as_str(), active_namespace) && is_deferred_namespace(
                active_namespace,
                namespace.as_str(),
            ) && is_valid_namespace_name(name.as_str())
        },
        None => false,
    }
}

// ---------------------------------------------------------------------------
// Texts
// ---------------------------------------------------------------------------

/// What an expression is replaced by, or why it is refused. `placeholder` is the
/// expression with its braces.
pub open spec fn replacement(
    text: Seq<char>,
    expr: Seq<char>,
    placeholder: Seq<char>,
    namespace: Seq<char>,
    values: Seq<Pair>,
    defer: bool,
) -> Result<Seq<char>, Seq<char>> {
    let prefix = namespace + "."@;
    if starts_with(expr, prefix) {
        let name = expr.skip(prefix.len() as int);
        if !valid_name(name) {
            Err("invalid input name '"@ + name + "' in '"@ + text + "'"@)
        } else {
            match value_of(values, name) {
                Some(v) => Ok(v),
                None => Err("missing required input '"@ + name + "'"@),
            }
        }
    } else if defer && deferred_expression(namespace, expr) {
        Ok(placeholder)
    } else {
        Err(
            "unsupported expression '${{"@ + expr + "}}'; only ${{ "@ + namespace
                + ".NAME }} is supported"@,
        )
    }
}

/// `front` before the text of `r`.
pub open spec fn behind_front(front: Seq<char>, r: Result<Seq<char>, Seq<char>>) -> Result<
    Seq<char>,
    Seq<char>,
> {
    match r {
        Ok(rest) => Ok(front + rest),
        Err(e) => Err(e),
    }
}

/// `rest`, a part of `text`, with its expressions replaced one after another, or why
/// the first of them that is refused is refused. What is filled in is not looked at
/// again.
pub open spec fn substituted(
    text: Seq<char>,
    rest: Seq<char>,
    namespace: Seq<char>,
    values: Seq<Pair>,
    defer: bool,
) -> Result<Seq<char>, Seq<char>>
    decreases rest.len(),
{
    match find(rest, "${{"@) {
        Some(start) if 0 <= start && start + 3 <= rest.len() => {
            let inner = rest.skip(start + 3);
            match find(inner, "}}"@) {
                Some(end) if 0 <= end && end + 2 <= inner.len() => match replacement(
                    text,
                    trim(inner.take(end)),
                    rest.subrange(start, start + 3 + end + 2),
                    namespace,
                    values,
                    defer,
                ) {
                    Ok(filled) => behind_front(
                        rest.take(start) + filled,
                        substituted(text, inner.skip(end + 2), namespace, values, defer),
                    ),
                    Err(e) => Err(e),
                },
                _ => Err("unterminated input expression in '"@ + text + "'"@),
            }
        },
        _ => Ok(rest),
    }
}

proof fn lemma_behind_front_twice(
    a: Seq<char>,
    b: Seq<char>,
    r: Result<Seq<char>, Seq<char>>,
)
    ensures
        behind_front(a, behind_front(b, r)) == behind_front(a + b, r),
{
    if let Ok(rest) = r {
        assert(a + (b + rest) =~= a + b + rest);
    }
}

/// What an expression is replaced by, or why it is refused.
fn replace_expression(
    text: &str,
    expr: &str,
    placeholder: String,
    namespace: &str,
    values: &Vec<(String, String)>,
    defer: bool,
) -> (r: Result<String, PlanError>)
    ensures
        match r {
            Ok(filled) => replacement(
                text@,
                expr@,
                placeholder@,
                namespace@,
                pairs(values@),
                defer,
            ) == Ok::<Seq<char>, Seq<char>>(filled@),
            Err(e) => replacement(
                text@,
                expr@,
                placeholder@,
                namespace@,
                pairs(values@),
                defer,
            ) == Err::<Seq<char>, Seq<char>>(e@),
        },
{
    let prefix = cat2(namespace, ".");
    match without_prefix(expr, prefix.as_str()) {
        Some(name) => {
            if !is_valid_namespace_name(name.as_str()) {
                return Err(
                    PlanError::new(
                        cat5("invalid input name '", name.as_str(), "' in '", text, "'"),
                    ),
                );
            }
            match lookup(values, name.as_str()) {
                Some(v) => Ok(v),
                None => Err(
                    PlanError::new(cat3("missing required input '", name.as_str(), "'")),
                ),
            }
        },
        None => {
            if defer && is_deferred_namespace_expression(namespace, expr) {
                return Ok(placeholder);
            }
            Err(
                PlanError::new(
                    cat5(
                        "unsupported expression '${{",
                        expr,
                        "}}'; only ${{ ",
                        namespace,
                        ".NAME }} is supported",
                    ),
                ),
            )
        },
    }
}

/// `text` with its expressions replaced.
fn substitute(
    text: &str,
    namespace: &str,
    values: &Vec<(String, String)>,
    defer: bool,
) -> (r: Result<String, PlanError>)
    ensures
        match r {
            Ok(rendered) => substituted(text@, text@, namespace@, pairs(values@), defer) == Ok::<
                Seq<char>,
                Seq<char>,
            >(rendered@),
            Err(e) => substituted(text@, text@, namespace@, pairs(values@), defer) == Err::<
                Seq<char>,
                Seq<char>,
            >(e@),
        },
{
    let v = to_chars(text);
    let open = to_chars("${{");
    let close = to_chars("}}");
    proof {
        reveal_strlit("${{");
        reveal_strlit("}}");
    }
    let ghost vals = pairs(values@);
    let ghost all = substituted(text@, text@, namespace@, vals, defer);
    let mut rendered = String::new();
    let mut at: usize = 0;
    assert(v@.skip(0) =~= v@);
    proof {
        if let Ok(rest) = all {
            assert(rendered@ + rest =~= rest);
        }
    }
    loop
        invariant
            at <= v@.len(),
            v@ == text@,
            open@ == "${{"@,
            close@ == "}}"@,
            "${{"@.len() == 3,
            "}}"@.len() == 2,
            vals == pairs(values@),
            all == substituted(text@, text@, namespace@, vals, defer),
            behind_front(
                rendered@,
                substituted(text@, v@.skip(at as int), namespace@, vals, defer),
            ) == all,
        decreases v@.len() - at,
    {
        let ghost rest = v@.skip(at as int);
        let ghost had = rendered@;
        proof {
            lemma_find_skip(v@, "${{"@, at as int);
        }
        match search(&v, &open, at) {
            None => {
                let tail = slice(&v, at, v.len());
                rendered.append(tail.as_str());
                assert(tail@ =~= rest);
                return Ok(rendered);
            },
            Some(start) => {
                let ghost inner = rest.skip(start - at + 3);
                assert(inner =~= v@.skip(start + 3));
                proof {
                    lemma_find_skip(v@, "}}"@, start + 3);
                }
                match search(&v, &close, start + 3) {
                    None => {
                        return Err(
                            PlanError::new(
                                cat3("unterminated input expression in '", text, "'"),
                            ),
                        );
                    },
                    Some(end) => {
                        let raw = slice(&v, start + 3, end);
                        assert(raw@ =~= inner.take(end - start - 3));
                        let expr = trimmed(raw.as_str());
                        let placeholder = slice(&v, start, end + 2);
                        assert(placeholder@ =~= rest.subrange(start - at, end + 2 - at));
                        let head = slice(&v, at, start);
                        assert(head@ =~= rest.take(start - at));
                        assert(inner.skip(end - start - 3 + 2) =~= v@.skip(end + 2));
                        match replace_expression(
                            text,
                            expr.as_str(),
                            placeholder,
                            namespace,
                            values,
                            defer,
                        ) {
                            Ok(filled) => {
                                rendered.append(head.as_str());
                                rendered.append(filled.as_str());
                                proof {
                                    assert(rendered@ =~= had + (head@ + filled@));
                                    lemma_behind_front_twice(
                                        had,
                                        head@ + filled@,
                                        substituted(
                                            text@,
                                            v@.skip(end + 2),
                                            namespace@,
                                            vals,
                                            defer,
                                        ),
                                    );
                                }
                                at = end + 2;
                            },
                            Err(e) => {
                                return Err(e);
                            },
                        }
                    },
                }
            },
        }
    }
}

/// `text` with its `${{ inputs.NAME }}` expressions replaced. Any other expression is
/// refused.
pub fn substitute_inputs_in_string(text: &str, inputs: &Vec<(String, String)>) -> (r: Result<
    String,
    PlanError,
>)
    ensures
        match r {
            Ok(rendered) => substituted(text@, text@, "inputs"@, pairs(inputs@), false) == Ok::<
                Seq<char>,
                Seq<char>,
            >(rendered@),
            Err(e) => substituted(text@, text@, "inputs"@, pairs(inputs@), false) == Err::<
                Seq<char>,
                Seq<char>,
            >(e@),
        },
{
    substitute(text, "inputs", inputs, false)
}

/// `text` with the expressions of `namespace` replaced. Inputs are left alone while
/// arguments are filled in, and arguments while inputs are; any other expression is
/// refused.
pub fn substitute_namespace_in_string(
    text: &str,
    namespace: &str,
    values: &Vec<(String, String)>,
) -> (r: Result<String, PlanError>)
    ensures
        match r {
            Ok(rendered) => substituted(text@, text@, namespace@, pairs(values@), true) == Ok::<
                Seq<char>,
                Seq<char>,
            >(rendered@),
            Err(e) => substituted(text@, text@, namespace@, pairs(values@), true) == Err::<
                Seq<char>,
                Seq<char>,
            >(e@),
        },
{
    substitute(text, namespace, values, true)
}

/// Text that opens no expression stays as it is.
pub proof fn plain_text_stays(
    text: Seq<char>,
    namespace: Seq<char>,
    values: Seq<Pair>,
    defer: bool,
)
    requires
        find(text, "${{"@) is None,
    ensures
        substituted(text, text, namespace, values, defer) == Ok::<Seq<char>, Seq<char>>(text),
{
}

/// The placeholder of a name in a namespace.
pub open spec fn placeholder(namespace: Seq<char>, name: Seq<char>) -> Seq<char> {
    "${{ "@ + namespace + "."@ + name + " }}"@
}

/// A character of a name is no white space, brace or point.
pub proof fn lemma_name_char_is_plain(c: char)
    requires
        is_name_char(c),
    ensures
        !is_space(c),
        c != '}',
        c != '.',
{
}

proof fn lemma_trimmed(s: Seq<char>)
    requires
        s.len() > 0,
        !is_space(s[0]),
        !is_space(s.last()),
    ensures
        trim(seq![' '] + s + seq![' ']) == s,
{
    let all = seq![' '] + s + seq![' '];
    reveal_with_fuel(trim_start, 2);
    reveal_with_fuel(trim_end, 2);
    assert(all.skip(1) =~= s + seq![' ']);
    assert((s + seq![' ']).drop_last() =~= s);
    assert((s + seq![' '])[0] == s[0]);
}

/// The first expression of a text that holds one behind plain text.
pub proof fn lemma_first_expression(front: Seq<char>, body: Seq<char>, rest: Seq<char>)
    requires
        find(front, "${{"@) is None,
        body.len() > 0,
        !is_space(body[0]),
        !is_space(body.last()),
        !body.contains('}'),
    ensures
        ({
            let s = front + ("${{ "@ + body + " }}"@) + rest;
            let start = front.len() as int;
            let inner = s.skip(start + 3);
            let end = (body.len() + 2) as int;
            &&& find(s, "${{"@) == Some(start)
            &&& start + 3 <= s.len()
            &&& find(inner, "}}"@) == Some(end)
            &&& end + 2 <= inner.len()
            &&& trim(inner.take(end)) == body
            &&& s.take(start) == front
            &&& s.subrange(start, start + 3 + end + 2) == "${{ "@ + body + " }}"@
            &&& inner.skip(end + 2) == rest
        }),
{
    reveal_strlit("${{");
    reveal_strlit("${{ ");
    reveal_strlit("}}");
    reveal_strlit(" }}");
    let s = front + ("${{ "@ + body + " }}"@) + rest;
    let start = front.len() as int;
    lemma_find_from(s, "${{"@, 0);
    lemma_find_from(front, "${{"@, 0);
    assert(s.subrange(start, start + 3) =~= "${{"@);
    assert(occurs_at(s, "${{"@, start));
    assert forall|j: int| 0 <= j < start implies !#[trigger] occurs_at(s, "${{"@, j) by {
        if j + 3 <= start {
            assert(s.subrange(j, j + 3) =~= front.subrange(j, j + 3));
            assert(!occurs_at(front, "${{"@, j));
        } else {
            // An opening that begins in the text before would need a brace where `$` stands.
            assert(s.subrange(j, j + 3)[start - j] == '$');
        }
    }
    let inner = s.skip(start + 3);
    let end = (body.len() + 2) as int;
    assert(inner =~= seq![' '] + body + seq![' '] + "}}"@ + rest);
    assert(inner.take(end) =~= seq![' '] + body + seq![' ']);
    lemma_trimmed(body);
    lemma_find_from(inner, "}}"@, 0);
    assert(inner.subrange(end, end + 2) =~= "}}"@);
    assert(occurs_at(inner, "}}"@, end));
    assert forall|j: int| 0 <= j < end implies !#[trigger] occurs_at(inner, "}}"@, j) by {
        assert(inner.subrange(j, j + 2)[0] == inner[j]);
        if 1 <= j < end - 1 {
            assert(inner[j] == body[j - 1]);
        }
    }
    assert(s.take(start) =~= front);
    assert(s.subrange(start, start + 3 + end + 2) =~= "${{ "@ + body + " }}"@);
    assert(inner.skip(end + 2) =~= rest);
}

/// The expression of a placeholder can stand in braces.
pub proof fn lemma_placeholder_body(namespace: Seq<char>, name: Seq<char>)
    requires
        valid_name(namespace),
        valid_name(name),
    ensures
        ({
            let body = namespace + "."@ + name;
            &&& body.len() > 0
            &&& !is_space(body[0])
            &&& !is_space(body.last())
            &&& !body.contains('}')
            &&& placeholder(namespace, name) == "${{ "@ + body + " }}"@
        }),
{
    reveal_strlit(".");
    let body = namespace + "."@ + name;
    lemma_name_char_is_plain(namespace[0]);
    lemma_name_char_is_plain(name.last());
    assert(body[0] == namespace[0]);
    assert(body.last() == name.last());
    if body.contains('}') {
        let k = choose|k: int| 0 <= k < body.len() && body[k] == '}';
        if k < namespace.len() {
            lemma_name_char_is_plain(namespace[k]);
        } else if k > namespace.len() {
            lemma_name_char_is_plain(name[k - namespace.len() - 1]);
        }
    }
    assert(placeholder(namespace, name) =~= "${{ "@ + body + " }}"@);
}

/// A placeholder is replaced by the value of its name and by nothing else: the text before
/// it stays, the value is not looked at again, and the text behind it is dealt with as if it
/// stood alone.
pub proof fn placeholders_are_filled_in(
    text: Seq<char>,
    front: Seq<char>,
    name: Seq<char>,
    rest: Seq<char>,
    namespace: Seq<char>,
    values: Seq<Pair>,
    defer: bool,
)
    requires
        find(front, "${{"@) is None,
        valid_name(namespace),
        valid_name(name),
        value_of(values, name) is Some,
    ensures
        substituted(
            text,
            front + placeholder(namespace, name) + rest,
            namespace,
            values,
            defer,
        ) == behind_front(
            front + value_of(values, name)->0,
            substituted(text, rest, namespace, values, defer),
        ),
{
    lemma_placeholder_body(namespace, name);
    let expr = namespace + "."@ + name;
    lemma_first_expression(front, expr, rest);
    let prefix = namespace + "."@;
    assert(expr.subrange(0, prefix.len() as int) =~= prefix);
    assert(expr.skip(prefix.len() as int) =~= name);
}

/// An expression of the other namespace is left for its own pass.
pub proof fn lemma_other_is_deferred(namespace: Seq<char>, other: Seq<char>, name: Seq<char>)
    requires
        deferred_namespace(namespace, other),
        valid_name(name),
    ensures
        valid_name(other),
        !starts_with(other + "."@ + name, namespace + "."@),
        deferred_expression(namespace, other + "."@ + name),
{
    reveal_strlit("inputs");
    reveal_strlit("args");
    reveal_strlit(".");
    let expr = other + "."@ + name;
    let prefix = namespace + "."@;
    assert(expr[0] == other[0]);
    assert(prefix[0] == namespace[0]);
    assert(!starts_with(expr, prefix));
    let n = other.len() as int;
    lemma_find_from(expr, seq!['.'], 0);
    assert(expr.subrange(n, n + 1) =~= seq!['.']);
    assert(occurs_at(expr, seq!['.'], n));
    assert forall|j: int| 0 <= j < n implies !#[trigger] occurs_at(expr, seq!['.'], j) by {
        assert(expr.subrange(j, j + 1)[0] == other[j]);
        lemma_name_char_is_plain(other[j]);
    }
    assert(find_char(expr, '.') == Some(n));
    assert(expr.take(n) =~= other);
    assert(expr.skip(n + 1) =~= name);
}

/// A placeholder of the other namespace is left for its own pass, braces and all.
pub proof fn other_placeholders_are_left(
    text: Seq<char>,
    front: Seq<char>,
    other: Seq<char>,
    name: Seq<char>,
    rest: Seq<char>,
    namespace: Seq<char>,
    values: Seq<Pair>,
)
    requires
        find(front, "${{"@) is None,
        deferred_namespace(namespace, other),
        valid_name(name),
    ensures
        substituted(
            text,
            front + placeholder(other, name) + rest,
            namespace,
            values,
            true,
        ) == behind_front(
            front + placeholder(other, name),
            substituted(text, rest, namespace, values, true),
        ),
{
    lemma_other_is_deferred(namespace, other, name);
    lemma_placeholder_body(other, name);
    lemma_first_expression(front, other + "."@ + name, rest);
}

// ---------------------------------------------------------------------------
// Values
// ---------------------------------------------------------------------------

/// A value with the expressions of its texts replaced, or why the first of them
/// that is refused is refused. The keys of mappings stay as they are.
pub open spec fn value_substituted(
    v: NodeView,
    namespace: Seq<char>,
    values: Seq<Pair>,
    defer: bool,
) -> Result<NodeView, Seq<char>>
    decreases v, 0nat,
{
    match v {
        NodeView::String(text) => match substituted(text, text, namespace, values, defer) {
            Ok(rendered) => Ok(NodeView::String(rendered)),
            Err(e) => Err(e),
        },
        NodeView::Sequence(items) => match items_substituted(
            items,
            items.len(),
            namespace,
            values,
            defer,
        ) {
            Ok(new) => Ok(NodeView::Sequence(new)),
            Err(e) => Err(e),
        },
        NodeView::Mapping(entries) => match entries_substituted(
            entries,
            entries.len(),
            namespace,
            values,
            defer,
        ) {
            Ok(new) => Ok(NodeView::Mapping(new)),
            Err(e) => Err(e),
        },
        _ => Ok(v),
    }
}

/// The first `n` items with their expressions replaced.
pub open spec fn items_substituted(
    items: Seq<NodeView>,
    n: nat,
    namespace: Seq<char>,
    values: Seq<Pair>,
    defer: bool,
) -> Result<Seq<NodeView>, Seq<char>>
    decreases items, n,
{
    if n == 0 || n > items.len() {
        Ok(seq![])
    } else {
        match items_substituted(items, (n - 1) as nat, namespace, values, defer) {
            Err(e) => Err(e),
            Ok(front) => match value_substituted(items[n - 1], namespace, values, defer) {
                Err(e) => Err(e),
                Ok(new) => Ok(front.push(new)),
            },
        }
    }
}

/// The first `n` entries with the expressions of their values replaced.
pub open spec fn entries_substituted(
    entries: Seq<EntryView>,
    n: nat,
    namespace: Seq<char>,
    values: Seq<Pair>,
    defer: bool,
) -> Result<Seq<EntryView>, Seq<char>>
    decreases entries, n,
{
    if n == 0 || n > entries.len() {
        Ok(seq![])
    } else {
        match entries_substituted(entries, (n - 1) as nat, namespace, values, defer) {
            Err(e) => Err(e),
            Ok(front) => match value_substituted(
                entries[n - 1].value,
                namespace,
                values,
                defer,
            ) {
                Err(e) => Err(e),
                Ok(new) => Ok(front.push(EntryView { key: entries[n - 1].key, value: new })),
            },
        }
    }
}

proof fn lemma_items_error_stays(
    items: Seq<NodeView>,
    n: nat,
    m: nat,
    namespace: Seq<char>,
    values: Seq<Pair>,
    defer: bool,
)
    requires
        n <= m <= items.len(),
        items_substituted(items, n, namespace, values, defer) is Err,
    ensures
        items_substituted(items, m, namespace, values, defer) == items_substituted(
            items,
            n,
            namespace,
            values,
            defer,
        ),
    decreases m,
{
    if n < m {
        lemma_items_error_stays(items, n, (m - 1) as nat, namespace, values, defer);
    }
}

proof fn lemma_entries_error_stays(
    entries: Seq<EntryView>,
    n: nat,
    m: nat,
    namespace: Seq<char>,
    values: Seq<Pair>,
    defer: bool,
)
    requires
        n <= m <= entries.len(),
        entries_substituted(entries, n, namespace, values, defer) is Err,
    ensures
        entries_substituted(entries, m, namespace, values, defer) == entries_substituted(
            entries,
            n,
            namespace,
            values,
            defer,
        ),
    decreases m,
{
    if n < m {
        lemma_entries_error_stays(entries, n, (m - 1) as nat, namespace, values, defer);
    }
}

/// A value with the expressions of its texts replaced.
fn substitute_value(
    value: &Node,
    namespace: &str,
    values: &Vec<(String, String)>,
    defer: bool,
) -> (r: Result<Node, PlanError>)
    ensures
        match r {
            Ok(new) => value_substituted(value@, namespace@, pairs(values@), defer) == Ok::<
                NodeView,
                Seq<char>,
            >(new@),
            Err(e) => value_substituted(value@, namespace@, pairs(values@), defer) == Err::<
                NodeView,
                Seq<char>,
            >(e@),
        },
    decreases value,
{
    let ghost vals = pairs(values@);
    match value {
        Node::String(text) => match substitute(text.as_str(), namespace, values, defer) {
            Ok(rendered) => Ok(Node::String(rendered)),
            Err(e) => Err(e),
        },
        Node::Sequence(items) => {
            let ghost all = value_views(items@);
            proof {
                lemma_sequence_view(*items);
            }
            let mut out: Vec<Node> = Vec::new();
            let mut i: usize = 0;
            assert(value_views(out@) =~= seq![]);
            while i < items.len()
                invariant
                    i <= items@.len(),
                    vals == pairs(values@),
                    all == value_views(items@),
                    value@ == NodeView::Sequence(all),
                    value matches Node::Sequence(own) && own == items,
                    items_substituted(all, i as nat, namespace@, vals, defer) == Ok::<
                        Seq<NodeView>,
                        Seq<char>,
                    >(value_views(out@)),
                decreases items@.len() - i,
            {
                let ghost had = value_views(out@);
                assert(all[i as int] == items@[i as int]@);
                match substitute_value(&items[i], namespace, values, defer) {
                    Ok(new) => {
                        out.push(new);
                        assert(value_views(out@) =~= had.push(new@));
                    },
                    Err(e) => {
                        proof {
                            lemma_items_error_stays(
                                all,
                                (i + 1) as nat,
                                all.len(),
                                namespace@,
                                vals,
                                defer,
                            );
                        }
                        return Err(e);
                    },
                }
                i += 1;
            }
            proof {
                lemma_sequence_view(out);
            }
            Ok(Node::Sequence(out))
        },
        Node::Mapping(entries) => {
            let ghost all = entry_views(entries@);
            proof {
                lemma_mapping_view(*entries);
            }
            let mut out: Vec<Entry> = Vec::new();
            let mut i: usize = 0;
            assert(entry_views(out@) =~= seq![]);
            while i < entries.len()
                invariant
                    i <= entries@.len(),
                    vals == pairs(values@),
                    all == entry_views(entries@),
                    value@ == NodeView::Mapping(all),
                    value matches Node::Mapping(own) && own == entries,
                    entries_substituted(all, i as nat, namespace@, vals, defer) == Ok::<
                        Seq<EntryView>,
                        Seq<char>,
                    >(entry_views(out@)),
                decreases entries@.len() - i,
            {
                let ghost had = entry_views(out@);
                assert(all[i as int] == entries@[i as int]@);
                match substitute_value(&entries[i].value, namespace, values, defer) {
                    Ok(new) => {
                        let key = entries[i].key.clone();
                        out.push(Entry { key, value: new });
                        assert(entry_views(out@) =~= had.push(
                            EntryView { key: all[i as int].key, value: new@ },
                        ));
                    },
                    Err(e) => {
                        proof {
                            lemma_entries_error_stays(
                                all,
                                (i + 1) as nat,
                                all.len(),
                                namespace@,
                                vals,
                                defer,
                            );
                        }
                        return Err(e);
                    },
                }
                i += 1;
            }
            proof {
                lemma_mapping_view(out);
            }
            Ok(Node::Mapping(out))
        },
        _ => Ok(value.clone()),
    }
}

/// A value with the `${{ inputs.NAME }}` expressions of its texts replaced. Any
/// other expression is refused.
pub fn substitute_inputs_in_value(value: &Node, inputs: &Vec<(String, String)>) -> (r: Result<
    Node,
    PlanError,
>)
    ensures
        match r {
            Ok(new) => value_substituted(value@, "inputs"@, pairs(inputs@), false) == Ok::<
                NodeView,
                Seq<char>,
            >(new@),
            Err(e) => value_substituted(value@, "inputs"@, pairs(inputs@), false) == Err::<
                NodeView,
                Seq<char>,
            >(e@),
        },
{
    substitute_value(value, "inputs", inputs, false)
}

/// A value with the expressions of `namespace` in its texts replaced.
pub fn substitute_namespace_in_value(
    value: &Node,
    namespace: &str,
    values: &Vec<(String, String)>,
) -> (r: Result<Node, PlanError>)
    ensures
        match r {
            Ok(new) => value_substituted(value@, namespace@, pairs(values@), true) == Ok::<
                NodeView,
                Seq<char>,
            >(new@),
            Err(e) => value_substituted(value@, namespace@, pairs(values@), true) == Err::<
                NodeView,
                Seq<char>,
            >(e@),
        },
{
    substitute_value(value, namespace, values, true)
}

/// A value with the `${{ args.NAME }}` expressions of its texts replaced.
pub fn substitute_args_in_value(value: &Node, args: &Vec<(String, String)>) -> (r: Result<
    Node,
    PlanError,
>)
    ensures
        match r {
            Ok(new) => value_substituted(value@, "args"@, pairs(args@), true) == Ok::<
                NodeView,
                Seq<char>,
            >(new@),
            Err(e) => value_substituted(value@, "args"@, pairs(args@), true) == Err::<
                NodeView,
                Seq<char>,
            >(e@),
        },
{
    substitute_namespace_in_value(value, "args", args)
}

} // verus!
