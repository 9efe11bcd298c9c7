//! Steps that `for:` repeats, once for each of its items.

use vstd::prelude::*;
use vstd::string::*;

use crate::env::{assigned, env_assign, lemma_assigned_value, merge_keeps_names_distinct, merged};
use crate::error::PlanError;
use crate::packages::{bool_text, bool_word};
use crate::pairs::{Pair, lemma_entry_of, names, pairs, value_of};
use crate::strings::decimal_u64;
use crate::template::{substitute_args_in_value, value_substituted};
use crate::text::{decimal, decimals_tell_numbers_apart};
use crate::value::{
    Entry, EntryView, Node, NodeView, entry_views, find_key, get, get_text, index_of_key,
    lemma_find_key, lemma_key_is, lemma_mapping_view, lemma_sequence_view, text_entry, text_of,
    value_views,
};

verus! {

/// The text of a scalar, or why a value is none.
pub open spec fn scalar_text(v: NodeView) -> Result<Seq<char>, Seq<char>> {
    match v {
        NodeView::String(text) => Ok(text),
        NodeView::Bool(b) => Ok(bool_word(b)),
        NodeView::Number(n) => Ok(n),
        NodeView::Null => Ok("null"@),
        _ => Err("step `for:` values must be scalars, sequences, or mappings"@),
    }
}

/// The text of a scalar.
pub fn scalar_value_to_string(value: &Node) -> (r: Result<String, PlanError>)
    ensures
        match r {
            Ok(text) => scalar_text(value@) == Ok::<Seq<char>, Seq<char>>(text@),
            Err(e) => scalar_text(value@) == Err::<Seq<char>, Seq<char>>(e@),
        },
{
    match value {
        Node::String(text) => Ok(text.clone()),
        Node::Bool(b) => Ok(bool_text(*b).to_owned()),
        Node::Number(n) => Ok(n.clone()),
        Node::Null => Ok("null".to_owned()),
        _ => Err(PlanError::text("step `for:` values must be scalars, sequences, or mappings")),
    }
}

/// The arguments that the first `n` values of a sequence give: each is named by its
/// position.
pub open spec fn positional_args(values: Seq<NodeView>, n: nat) -> Result<Seq<Pair>, Seq<char>>
    decreases n,
{
    if n == 0 {
        Ok(seq![])
    } else {
        match positional_args(values, (n - 1) as nat) {
            Err(e) => Err(e),
            Ok(front) => match scalar_text(values[n - 1]) {
                Err(e) => Err(e),
                Ok(text) => Ok(assigned(front, (decimal((n - 1) as nat), text))),
            },
        }
    }
}

/// The arguments that the first `n` entries of a mapping give.
pub open spec fn named_args(entries: Seq<EntryView>, n: nat) -> Result<Seq<Pair>, Seq<char>>
    decreases n,
{
    if n == 0 {
        Ok(seq![])
    } else {
        match named_args(entries, (n - 1) as nat) {
            Err(e) => Err(e),
            Ok(front) => match entries[n - 1].key {
                NodeView::String(name) => match scalar_text(entries[n - 1].value) {
                    Err(e) => Err(e),
                    Ok(text) => Ok(assigned(front, (name, text))),
                },
                _ => Err("step `for:` mapping keys must be strings"@),
            },
        }
    }
}

/// The arguments that an item of `for:` gives.
pub open spec fn for_args(item: NodeView) -> Result<Seq<Pair>, Seq<char>> {
    match item {
        NodeView::Sequence(values) => positional_args(values, values.len()),
        NodeView::Mapping(entries) => named_args(entries, entries.len()),
        _ => match scalar_text(item) {
            Ok(text) => Ok(seq![("0"@, text)]),
            Err(e) => Err(e),
        },
    }
}

proof fn lemma_positional_error_stays(values: Seq<NodeView>, n: nat, m: nat)
    requires
        n <= m,
        positional_args(values, n) is Err,
    ensures
        positional_args(values, m) == positional_args(values, n),
    decreases m,
{
    if n < m {
        lemma_positional_error_stays(values, n, (m - 1) as nat);
    }
}

proof fn lemma_named_error_stays(entries: Seq<EntryView>, n: nat, m: nat)
    requires
        n <= m,
        named_args(entries, n) is Err,
    ensures
        named_args(entries, m) == named_args(entries, n),
    decreases m,
{
    if n < m {
        lemma_named_error_stays(entries, n, (m - 1) as nat);
    }
}

/// The arguments that an item of `for:` gives: the values of a sequence by their
/// positions, those of a mapping by their keys, and a scalar as argument `0`.
pub fn resolve_for_args(item: &Node) -> (r: Result<Vec<(String, String)>, PlanError>)
    ensures
        match r {
            Ok(args) => for_args(item@) == Ok::<Seq<Pair>, Seq<char>>(pairs(args@)),
            Err(e) => for_args(item@) == Err::<Seq<Pair>, Seq<char>>(e@),
        },
{
    let mut args: Vec<(String, String)> = Vec::new();
    assert(pairs(args@) =~= seq![]);
    match item {
        Node::Sequence(values) => {
            let ghost all = value_views(values@);
            proof {
                lemma_sequence_view(*values);
            }
            let mut i: usize = 0;
            while i < values.len()
                invariant
                    i <= values@.len(),
                    all == value_views(values@),
                    item@ == NodeView::Sequence(all),
                    positional_args(all, i as nat) == Ok::<Seq<Pair>, Seq<char>>(pairs(args@)),
                decreases values@.len() - i,
            {
                assert(all[i as int] == values@[i as int]@);
                match scalar_value_to_string(&values[i]) {
                    Ok(text) => {
                        let index = decimal_u64(i as u64);
                        env_assign(&mut args, index, text);
                    },
                    Err(e) => {
                        proof {
                            lemma_positional_error_stays(all, (i + 1) as nat, all.len());
                        }
                        return Err(e);
                    },
                }
                i += 1;
            }
            Ok(args)
        },
        Node::Mapping(entries) => {
            let ghost all = entry_views(entries@);
            proof {
                lemma_mapping_view(*entries);
            }
            let mut i: usize = 0;
            while i < entries.len()
                invariant
                    i <= entries@.len(),
                    all == entry_views(entries@),
                    item@ == NodeView::Mapping(all),
                    named_args(all, i as nat) == Ok::<Seq<Pair>, Seq<char>>(pairs(args@)),
                decreases entries@.len() - i,
            {
                assert(all[i as int] == entries@[i as int]@);
                let name = match &entries[i].key {
                    Node::String(name) => name.clone(),
                    _ => {
                        proof {
                            lemma_named_error_stays(all, (i + 1) as nat, all.len());
                        }
                        return Err(
                            PlanError::text("step `for:` mapping keys must be strings"),
                        );
                    },
                };
                match scalar_value_to_string(&entries[i].value) {
                    Ok(text) => {
                        env_assign(&mut args, name, text);
                    },
                    Err(e) => {
                        proof {
                            lemma_named_error_stays(all, (i + 1) as nat, all.len());
                        }
                        return Err(e);
                    },
                }
                i += 1;
            }
            Ok(args)
        },
        _ => match scalar_value_to_string(item) {
            Ok(text) => {
                let ghost view = text@;
                args.push(("0".to_owned(), text));
                assert(pairs(args@) =~= seq![("0"@, view)]);
                Ok(args)
            },
            Err(e) => Err(e),
        },
    }
}

// ---------------------------------------------------------------------------
// Expansion
// ---------------------------------------------------------------------------

/// A step that stands for itself: its name, for messages about it, and its fields.
#[derive(Debug)]
pub struct ConcreteStep {
    pub name: String,
    pub body: Node,
}

/// The model of a [`ConcreteStep`].
pub type ConcreteView = (Seq<char>, NodeView);

/// The contents of a list of concrete steps.
pub open spec fn concrete_views(v: Seq<ConcreteStep>) -> Seq<ConcreteView> {
    v.map_values(|s: ConcreteStep| (s.name@, s.body@))
}

/// The steps that a step stands for. With an error, those before it.
#[derive(Debug)]
pub struct Expansion {
    pub steps: Vec<ConcreteStep>,
    pub error: Option<PlanError>,
}

/// The model of an [`Expansion`].
pub struct ExpansionView {
    pub steps: Seq<ConcreteView>,
    pub error: Option<Seq<char>>,
}

impl View for Expansion {
    type V = ExpansionView;

    open spec fn view(&self) -> ExpansionView {
        ExpansionView {
            steps: concrete_views(self.steps@),
            error: match self.error {
                Some(e) => Some(e@),
                None => None,
            },
        }
    }
}

/// The name that the fields of a step give it.
pub open spec fn step_name(entries: Seq<EntryView>, unnamed: Seq<char>) -> Seq<char> {
    match get_text(entries, "name"@) {
        Some(v) => match text_of(v) {
            Some(name) => name,
            None => unnamed,
        },
        None => unnamed,
    }
}

/// The name that the fields of a step give it, if they are fields at all.
pub open spec fn body_name(body: NodeView, unnamed: Seq<char>) -> Seq<char> {
    match body {
        NodeView::Mapping(entries) => step_name(entries, unnamed),
        _ => unnamed,
    }
}

/// `entries` without the one at `k`, whose place the last one takes.
pub open spec fn removed(entries: Seq<EntryView>, k: int) -> Seq<EntryView> {
    entries.update(k, entries.last()).drop_last()
}

/// The steps that the first `n` items of `for:` make of `body`.
pub open spec fn repeated(
    items: Seq<NodeView>,
    body: NodeView,
    unnamed: Seq<char>,
    n: nat,
) -> ExpansionView
    decreases n,
{
    if n == 0 {
        ExpansionView { steps: seq![], error: None }
    } else {
        let front = repeated(items, body, unnamed, (n - 1) as nat);
        if front.error is Some {
            front
        } else {
            match for_args(items[n - 1]) {
                Err(e) => ExpansionView { steps: front.steps, error: Some(e) },
                Ok(args) => match value_substituted(body, "args"@, args, true) {
                    Err(e) => ExpansionView { steps: front.steps, error: Some(e) },
                    Ok(concrete) => ExpansionView {
                        steps: front.steps.push((body_name(concrete, unnamed), concrete)),
                        error: None,
                    },
                },
            }
        }
    }
}

/// The steps that a step stands for.
pub open spec fn expansion(step: NodeView) -> ExpansionView {
    match step {
        NodeView::Mapping(entries) => {
            let name = step_name(entries, "<unnamed>"@);
            match find_key(entries, NodeView::String("for"@)) {
                None => ExpansionView { steps: seq![(name, step)], error: None },
                Some(k) => match entries[k].value {
                    NodeView::Sequence(items) => repeated(
                        items,
                        NodeView::Mapping(removed(entries, k)),
                        name,
                        items.len(),
                    ),
                    _ => ExpansionView {
                        steps: seq![],
                        error: Some("step `for:` must be a sequence"@),
                    },
                },
            }
        },
        _ => ExpansionView { steps: seq![], error: Some("step entry must be a mapping"@) },
    }
}

proof fn lemma_repeated_error_stays(
    items: Seq<NodeView>,
    body: NodeView,
    unnamed: Seq<char>,
    n: nat,
    m: nat,
)
    requires
        n <= m,
        repeated(items, body, unnamed, n).error is Some,
    ensures
        repeated(items, body, unnamed, m) == repeated(items, body, unnamed, n),
    decreases m,
{
    if n < m {
        lemma_repeated_error_stays(items, body, unnamed, n, (m - 1) as nat);
    }
}

fn failed(steps: Vec<ConcreteStep>, e: PlanError) -> (r: Expansion)
    ensures
        r@ == (ExpansionView { steps: concrete_views(steps@), error: Some(e@) }),
{
    Expansion { steps, error: Some(e) }
}

/// The name that the fields of a step give it.
fn name_in(entries: &Vec<Entry>, unnamed: &str) -> (r: String)
    ensures
        r@ == step_name(entry_views(entries@), unnamed@),
{
    match text_entry(entries, "name") {
        Some(v) => match v.as_text() {
            Some(name) => name.to_owned(),
            None => unnamed.to_owned(),
        },
        None => unnamed.to_owned(),
    }
}

/// The steps that a step stands for: itself, or one for each item of its `for:`,
/// with the item's arguments filled in. A step that cannot be filled in ends the
/// expansion.
pub fn expand_raw_step(step: Node) -> (r: Expansion)
    ensures
        r@ == expansion(step@),
{
    let ghost whole = step@;
    let mut entries: Vec<Entry> = match step {
        Node::Mapping(entries) => entries,
        _ => {
            let none: Vec<ConcreteStep> = Vec::new();
            assert(concrete_views(none@) =~= seq![]);
            return failed(none, PlanError::text("step entry must be a mapping"));
        },
    };
    let ghost es = entry_views(entries@);
    proof {
        lemma_mapping_view(entries);
    }
    let name = name_in(&entries, "<unnamed>");
    let for_key = Node::String("for".to_owned());
    let mut steps: Vec<ConcreteStep> = Vec::new();
    assert(concrete_views(steps@) =~= seq![]);
    let k = match index_of_key(&entries, &for_key) {
        None => {
            let ghost shown = name@;
            steps.push(ConcreteStep { name, body: Node::Mapping(entries) });
            assert(concrete_views(steps@) =~= seq![(shown, whole)]);
            return Expansion { steps, error: None };
        },
        Some(k) => k,
    };
    let taken = entries.swap_remove(k);
    assert(taken@ == es[k as int]);
    assert(entry_views(entries@) =~= removed(es, k as int));
    let items = match taken.value {
        Node::Sequence(items) => items,
        _ => {
            return failed(steps, PlanError::text("step `for:` must be a sequence"));
        },
    };
    let ghost all = value_views(items@);
    proof {
        lemma_sequence_view(items);
        lemma_mapping_view(entries);
    }
    let body = Node::Mapping(entries);
    let ghost bv = body@;
    let mut i: usize = 0;
    while i < items.len()
        invariant
            i <= items@.len(),
            all == value_views(items@),
            bv == body@,
            whole == step@,
            expansion(whole) == repeated(all, bv, name@, all.len()),
            repeated(all, bv, name@, i as nat) == (ExpansionView {
                steps: concrete_views(steps@),
                error: None,
            }),
        decreases items@.len() - i,
    {
        let ghost had = concrete_views(steps@);
        assert(all[i as int] == items@[i as int]@);
        let args = match resolve_for_args(&items[i]) {
            Ok(args) => args,
            Err(e) => {
                proof {
                    lemma_repeated_error_stays(all, bv, name@, (i + 1) as nat, all.len());
                }
                return failed(steps, e);
            },
        };
        let concrete = match substitute_args_in_value(&body, &args) {
            Ok(concrete) => concrete,
            Err(e) => {
                proof {
                    lemma_repeated_error_stays(all, bv, name@, (i + 1) as nat, all.len());
                }
                return failed(steps, e);
            },
        };
        let concrete_name = match &concrete {
            Node::Mapping(fields) => {
                proof {
                    lemma_mapping_view(*fields);
                }
                name_in(fields, name.as_str())
            },
            _ => name.clone(),
        };
        let ghost pair = (concrete_name@, concrete@);
        steps.push(ConcreteStep { name: concrete_name, body: concrete });
        assert(concrete_views(steps@) =~= had.push(pair));
        i += 1;
    }
    Expansion { steps, error: None }
}

/// An expansion without an error has a step for each item.
pub proof fn one_step_per_item(
    items: Seq<NodeView>,
    body: NodeView,
    unnamed: Seq<char>,
    n: nat,
)
    requires
        repeated(items, body, unnamed, n).error is None,
    ensures
        repeated(items, body, unnamed, n).steps.len() == n,
    decreases n,
{
    if n > 0 {
        one_step_per_item(items, body, unnamed, (n - 1) as nat);
    }
}

// ---------------------------------------------------------------------------
// What the arguments are
// ---------------------------------------------------------------------------

proof fn lemma_assigned_names(env: Seq<Pair>, pair: Pair)
    requires
        names(env).no_duplicates(),
    ensures
        names(assigned(env, pair)).no_duplicates(),
        forall|name: Seq<char>| #[trigger]
            names(assigned(env, pair)).contains(name) <==> names(env).contains(name) || name
                == pair.0,
{
    let none = Seq::<Pair>::empty();
    let one = seq![pair];
    assert(one.drop_last() =~= none);
    assert(merged(env, none) == env);
    assert(merged(env, one) == assigned(env, pair));
    merge_keeps_names_distinct(env, one);
    lemma_entry_of(env, pair.0);
    let after = assigned(env, pair);
    assert forall|name: Seq<char>| #[trigger]
        names(after).contains(name) <==> names(env).contains(name) || name == pair.0 by {
        if names(after).contains(name) {
            let j = choose|j: int| 0 <= j < names(after).len() && names(after)[j] == name;
            assert(after[j].0 == name);
            if j < env.len() {
                assert(names(env)[j] == env[j].0);
            }
        }
        if names(env).contains(name) {
            let j = choose|j: int| 0 <= j < names(env).len() && names(env)[j] == name;
            assert(env[j].0 == name);
            assert(names(after)[j] == after[j].0);
        }
        if name == pair.0 {
            match crate::pairs::entry_of(env, pair.0) {
                Some(k) => {
                    assert(names(after)[k] == name);
                },
                None => {
                    assert(names(after)[env.len() as int] == name);
                },
            }
        }
    }
}

/// The arguments of a mapping are its entries: each key stands for the text of its value, of a
/// key that comes twice the last one counts, and there are no other arguments. A mapping gives
/// arguments exactly if its keys are texts and its values scalars.
pub proof fn mappings_give_named_arguments(entries: Seq<EntryView>, n: nat)
    requires
        n <= entries.len(),
    ensures
        named_args(entries, n) is Ok <==> forall|k: int|
            0 <= k < n ==> (#[trigger] entries[k]).key is String && scalar_text(
                entries[k].value,
            ) is Ok,
        named_args(entries, n) matches Ok(args) ==> {
            &&& names(args).no_duplicates()
            &&& forall|k: int|
                0 <= k < n && (forall|j: int|
                    k < j < n ==> (#[trigger] entries[j]).key != entries[k].key) ==> value_of(
                    args,
                    (#[trigger] entries[k]).key->String_0,
                ) == Some(scalar_text(entries[k].value)->Ok_0)
            &&& forall|name: Seq<char>| #[trigger]
                names(args).contains(name) <==> exists|k: int|
                    0 <= k < n && (#[trigger] entries[k]).key == NodeView::String(name)
        },
    decreases n,
{
    if n > 0 {
        mappings_give_named_arguments(entries, (n - 1) as nat);
        let e = entries[n - 1];
        if let Ok(front) = named_args(entries, (n - 1) as nat) {
            if let (NodeView::String(name), Ok(text)) = (e.key, scalar_text(e.value)) {
                let args = assigned(front, (name, text));
                lemma_assigned_names(front, (name, text));
                assert forall|k: int|
                    0 <= k < n && (forall|j: int|
                        k < j < n ==> (#[trigger] entries[j]).key
                            != entries[k].key) implies value_of(
                    args,
                    (#[trigger] entries[k]).key->String_0,
                ) == Some(scalar_text(entries[k].value)->Ok_0) by {
                    let other = entries[k].key->String_0;
                    lemma_assigned_value(front, (name, text), other);
                    if k < n - 1 {
                        assert(entries[n - 1].key != entries[k].key);
                        assert(entries[k].key is String);
                        assert(other != name);
                        assert(forall|j: int|
                            k < j < n - 1 ==> (#[trigger] entries[j]).key != entries[k].key);
                    }
                }
                assert forall|other: Seq<char>| #[trigger]
                    names(args).contains(other) <==> exists|k: int|
                        0 <= k < n && (#[trigger] entries[k]).key == NodeView::String(other) by {
                    if names(front).contains(other) {
                        let k = choose|k: int|
                            0 <= k < n - 1 && (#[trigger] entries[k]).key == NodeView::String(
                                other,
                            );
                        assert(entries[k].key == NodeView::String(other));
                    }
                    if other == name {
                        assert(entries[n - 1].key == NodeView::String(other));
                    }
                    if exists|k: int|
                        0 <= k < n && (#[trigger] entries[k]).key == NodeView::String(other) {
                        let k = choose|k: int|
                            0 <= k < n && (#[trigger] entries[k]).key == NodeView::String(other);
                        if k < n - 1 {
                            assert(names(front).contains(other));
                        }
                    }
                }
            }
        } else {
            let k = choose|k: int|
                0 <= k < n - 1 && !((#[trigger] entries[k]).key is String && scalar_text(
                    entries[k].value,
                ) is Ok);
            assert(!(entries[k].key is String && scalar_text(entries[k].value) is Ok));
        }
    }
}

/// The arguments of a sequence are its values, each named by its position, in order.
pub proof fn sequences_give_numbered_arguments(values: Seq<NodeView>, n: nat)
    requires
        n <= values.len(),
    ensures
        positional_args(values, n) is Ok <==> forall|k: int|
            0 <= k < n ==> scalar_text(#[trigger] values[k]) is Ok,
        positional_args(values, n) matches Ok(args) ==> {
            &&& args.len() == n
            &&& forall|k: int|
                0 <= k < n ==> #[trigger] args[k] == (
                    decimal(k as nat),
                    scalar_text(values[k])->Ok_0,
                )
        },
    decreases n,
{
    if n > 0 {
        let m = (n - 1) as nat;
        sequences_give_numbered_arguments(values, m);
        if let Ok(front) = positional_args(values, m) {
            if let Ok(text) = scalar_text(values[n - 1]) {
                lemma_entry_of(front, decimal(m));
                if let Some(k) = crate::pairs::entry_of(front, decimal(m)) {
                    assert(front[k].0 == decimal(k as nat));
                    decimals_tell_numbers_apart(k as nat, m);
                }
            }
        } else {
            let k = choose|k: int| 0 <= k < n - 1 && !(scalar_text(#[trigger] values[k]) is Ok);
            assert(!(scalar_text(values[k]) is Ok));
        }
    }
}

/// What an item of `for:` gives: a mapping its entries by their keys, a sequence its values by
/// their positions from `0` on, and a scalar its text as argument `0`.
pub proof fn items_give_their_values(item: NodeView)
    ensures
        item matches NodeView::Mapping(entries) ==> for_args(item) matches Ok(args) ==> forall|
            k: int,
        |
            0 <= k < entries.len() && (forall|j: int|
                k < j < entries.len() ==> (#[trigger] entries[j]).key != entries[k].key)
                ==> value_of(args, (#[trigger] entries[k]).key->String_0) == Some(
                scalar_text(entries[k].value)->Ok_0,
            ),
        item matches NodeView::Mapping(entries) ==> for_args(item) matches Ok(args) ==> forall|
            name: Seq<char>,
        | #[trigger]
            names(args).contains(name) <==> exists|k: int|
                0 <= k < entries.len() && (#[trigger] entries[k]).key == NodeView::String(name),
        item matches NodeView::Sequence(values) ==> for_args(item) matches Ok(args) ==> args.len()
            == values.len() && forall|k: int|
            0 <= k < values.len() ==> #[trigger] args[k] == (
                decimal(k as nat),
                scalar_text(values[k])->Ok_0,
            ),
        item matches NodeView::String(text) ==> for_args(item) == Ok::<Seq<Pair>, Seq<char>>(
            seq![("0"@, text)],
        ),
        item matches NodeView::Number(text) ==> for_args(item) == Ok::<Seq<Pair>, Seq<char>>(
            seq![("0"@, text)],
        ),
        item matches NodeView::Bool(b) ==> for_args(item) == Ok::<Seq<Pair>, Seq<char>>(
            seq![
                (
                    "0"@,
                    if b {
                        "true"@
                    } else {
                        "false"@
                    },
                ),
            ],
        ),
        item is Null ==> for_args(item) == Ok::<Seq<Pair>, Seq<char>>(seq![("0"@, "null"@)]),
        item is Tagged ==> for_args(item) is Err,
{
    match item {
        NodeView::Mapping(entries) => {
            mappings_give_named_arguments(entries, entries.len());
        },
        NodeView::Sequence(values) => {
            sequences_give_numbered_arguments(values, values.len());
        },
        _ => {},
    }
}

/// The text of a scalar is the text that it holds: a text itself, a number as it is written, and
/// the words `true`, `false` and `null`. Nothing else has one.
pub proof fn scalars_have_texts(value: NodeView)
    ensures
        value matches NodeView::String(text) ==> scalar_text(value) == Ok::<Seq<char>, Seq<char>>(
            text,
        ),
        value matches NodeView::Number(text) ==> scalar_text(value) == Ok::<Seq<char>, Seq<char>>(
            text,
        ),
        value == NodeView::Bool(true) ==> scalar_text(value) == Ok::<Seq<char>, Seq<char>>(
            "true"@,
        ),
        value == NodeView::Bool(false) ==> scalar_text(value) == Ok::<Seq<char>, Seq<char>>(
            "false"@,
        ),
        value is Null ==> scalar_text(value) == Ok::<Seq<char>, Seq<char>>("null"@),
        value is Sequence || value is Mapping || value is Tagged ==> scalar_text(value) is Err,
{
}

/// Each item of `for:` makes one step, in the order of the items: the fields of the step without
/// `for:`, with the arguments of that item filled in.
pub proof fn items_make_steps_in_order(
    items: Seq<NodeView>,
    body: NodeView,
    unnamed: Seq<char>,
    n: nat,
    i: int,
)
    requires
        repeated(items, body, unnamed, n).error is None,
        0 <= i < n <= items.len(),
    ensures
        repeated(items, body, unnamed, n).steps.len() == n,
        for_args(items[i]) is Ok,
        value_substituted(body, "args"@, for_args(items[i])->Ok_0, true) == Ok::<
            NodeView,
            Seq<char>,
        >(repeated(items, body, unnamed, n).steps[i].1),
    decreases n,
{
    one_step_per_item(items, body, unnamed, n);
    one_step_per_item(items, body, unnamed, (n - 1) as nat);
    if i < n - 1 {
        items_make_steps_in_order(items, body, unnamed, (n - 1) as nat, i);
    }
}

/// A step without `for:` stands for itself. One with `for:` stands for one step for each item,
/// none of which has a `for:` in its own fields any more; its other fields are still there.
pub proof fn steps_are_repeated_without_for(entries: Seq<EntryView>, k: int, key: NodeView)
    requires
        0 <= k < entries.len(),
        entries[k].key == NodeView::String("for"@),
        forall|i: int, j: int|
            0 <= i < j < entries.len() ==> (#[trigger] entries[i]).key != (
            #[trigger] entries[j]).key,
    ensures
        get(removed(entries, k), entries[k].key) is None,
        key != entries[k].key ==> get(removed(entries, k), key) == get(entries, key),
        entries[k].value matches NodeView::Sequence(items) ==> expansion(
            NodeView::Mapping(entries),
        ) == repeated(
            items,
            NodeView::Mapping(removed(entries, k)),
            step_name(entries, "<unnamed>"@),
            items.len(),
        ),
        !(entries[k].value is Sequence) ==> expansion(NodeView::Mapping(entries)).error is Some,
{
    let rest = removed(entries, k);
    let last = entries.len() - 1;
    assert forall|j: int| 0 <= j < k implies (#[trigger] entries[j]).key != entries[k].key by {}
    lemma_key_is(entries, entries[k].key, k);
    lemma_find_key(rest, entries[k].key);
    if let Some(j) = find_key(rest, entries[k].key) {
        if j == k {
            assert(entries[k].key != entries[last].key);
        } else if j < k {
            assert(entries[j].key != entries[k].key);
        } else {
            assert(entries[k].key != entries[j].key);
        }
    }
    if key != entries[k].key {
        lemma_find_key(entries, key);
        lemma_find_key(rest, key);
        match find_key(entries, key) {
            Some(j) => {
                let at = if j == last {
                    k
                } else {
                    j
                };
                assert(rest[at] == entries[j]);
                assert forall|i: int| 0 <= i < at implies (#[trigger] rest[i]).key != key by {
                    let from = if i == k {
                        last
                    } else {
                        i
                    };
                    assert(rest[i] == entries[from]);
                    if from < j {
                        assert(entries[from].key != entries[j].key);
                    } else {
                        assert(entries[j].key != entries[from].key);
                    }
                }
                lemma_key_is(rest, key, at);
            },
            None => {
                if let Some(j) = find_key(rest, key) {
                    let from = if j == k {
                        last
                    } else {
                        j
                    };
                    assert(rest[j] == entries[from]);
                    assert(entries[from].key != key);
                }
            },
        }
    }
}

/// A step whose fields hold no `for:` stands for itself, under its own name.
pub proof fn plain_steps_stand_for_themselves(entries: Seq<EntryView>)
    requires
        get(entries, NodeView::String("for"@)) is None,
    ensures
        expansion(NodeView::Mapping(entries)).error is None,
        expansion(NodeView::Mapping(entries)).steps.len() == 1,
        expansion(NodeView::Mapping(entries)).steps[0].1 == NodeView::Mapping(entries),
        get(entries, NodeView::String("name"@)) matches Some(NodeView::String(name)) ==> expansion(
            NodeView::Mapping(entries),
        ).steps[0].0 == name,
{
}

} // verus!
