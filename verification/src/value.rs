//! Document values: the tree that a YAML document is read into.

use vstd::prelude::*;
use vstd::string::*;

use crate::strings::same;

verus! {

/// A node of a parsed document. A number is kept as the text it renders to.
#[derive(Debug, PartialEq, Eq)]
pub enum Node {
    Null,
    Bool(bool),
    Number(String),
    String(String),
    Sequence(Vec<Node>),
    Mapping(Vec<Entry>),
    Tagged(String, Box<Node>),
}

/// A key of a mapping with its value.
#[derive(Debug, PartialEq, Eq)]
pub struct Entry {
    pub key: Node,
    pub value: Node,
}

/// The model of a [`Node`].
pub enum NodeView {
    Null,
    Bool(bool),
    Number(Seq<char>),
    String(Seq<char>),
    Sequence(Seq<NodeView>),
    Mapping(Seq<EntryView>),
    Tagged(Seq<char>, Box<NodeView>),
}

/// The model of an [`Entry`].
pub struct EntryView {
    pub key: NodeView,
    pub value: NodeView,
}

impl View for Node {
    type V = NodeView;

    open spec fn view(&self) -> NodeView
        decreases self,
    {
        match self {
            Node::Null => NodeView::Null,
            Node::Bool(b) => NodeView::Bool(*b),
            Node::Number(n) => NodeView::Number(n@),
            Node::String(s) => NodeView::String(s@),
            Node::Sequence(items) => NodeView::Sequence(
                Seq::new(
                    items@.len(),
                    |i: int|
                        if 0 <= i < items@.len() {
                            items@[i].view()
                        } else {
                            NodeView::Null
                        },
                ),
            ),
            Node::Mapping(entries) => NodeView::Mapping(
                Seq::new(
                    entries@.len(),
                    |i: int|
                        if 0 <= i < entries@.len() {
                            EntryView { key: entries@[i].key.view(), value: entries@[i].value.view() }
                        } else {
                            EntryView { key: NodeView::Null, value: NodeView::Null }
                        },
                ),
            ),
            Node::Tagged(tag, inner) => NodeView::Tagged(tag@, Box::new((**inner).view())),
        }
    }
}


impl Clone for Node {
    fn clone(&self) -> (r: Node)
        ensures
            r@ == self@,
        decreases self,
    {
        match self {
            Node::Null => Node::Null,
            Node::Bool(b) => Node::Bool(*b),
            Node::Number(n) => Node::Number(n.clone()),
            Node::String(s) => Node::String(s.clone()),
            Node::Sequence(items) => {
                let mut out: Vec<Node> = Vec::new();
                let mut i: usize = 0;
                while i < items.len()
                    invariant
                        i <= items@.len(),
                        self matches Node::Sequence(own) && own == items,
                        out@.len() == i,
                        forall|j: int| 0 <= j < i ==> (#[trigger] out@[j])@ == items@[j]@,
                    decreases items@.len() - i,
                {
                    let item = items[i].clone();
                    out.push(item);
                    i += 1;
                }
                let r = Node::Sequence(out);
                assert(r@->Sequence_0 =~= self@->Sequence_0);
                r
            },
            Node::Mapping(entries) => {
                let mut out: Vec<Entry> = Vec::new();
                let mut i: usize = 0;
                while i < entries.len()
                    invariant
                        i <= entries@.len(),
                        self matches Node::Mapping(own) && own == entries,
                        out@.len() == i,
                        forall|j: int|
                            0 <= j < i ==> (#[trigger] out@[j]).key@ == entries@[j].key@
                                && out@[j].value@ == entries@[j].value@,
                    decreases entries@.len() - i,
                {
                    let key = entries[i].key.clone();
                    let value = entries[i].value.clone();
                    out.push(Entry { key, value });
                    i += 1;
                }
                let r = Node::Mapping(out);
                assert(r@->Mapping_0 =~= self@->Mapping_0);
                r
            },
            Node::Tagged(tag, inner) => Node::Tagged(tag.clone(), Box::new((**inner).clone())),
        }
    }
}

impl View for Entry {
    type V = EntryView;

    open spec fn view(&self) -> EntryView {
        EntryView { key: self.key@, value: self.value@ }
    }
}

/// The contents of a list of values.
pub open spec fn value_views(v: Seq<Node>) -> Seq<NodeView> {
    v.map_values(|x: Node| x@)
}

/// The contents of a list of entries.
pub open spec fn entry_views(v: Seq<Entry>) -> Seq<EntryView> {
    v.map_values(|e: Entry| e@)
}

/// What a sequence models.
pub proof fn lemma_sequence_view(items: Vec<Node>)
    ensures
        Node::Sequence(items)@ == NodeView::Sequence(value_views(items@)),
{
    assert(Node::Sequence(items)@->Sequence_0 =~= value_views(items@));
}

/// What a mapping models.
pub proof fn lemma_mapping_view(entries: Vec<Entry>)
    ensures
        Node::Mapping(entries)@ == NodeView::Mapping(entry_views(entries@)),
{
    assert(Node::Mapping(entries)@->Mapping_0 =~= entry_views(entries@));
}

/// The first entry with the key `key`.
pub open spec fn find_key(entries: Seq<EntryView>, key: NodeView) -> Option<int>
    decreases entries.len(),
{
    if entries.len() == 0 {
        None
    } else if entries[0].key == key {
        Some(0int)
    } else {
        match find_key(entries.skip(1), key) {
            Some(k) => Some(k + 1),
            None => None,
        }
    }
}

/// The value of the key `key`.
pub open spec fn get(entries: Seq<EntryView>, key: NodeView) -> Option<NodeView> {
    match find_key(entries, key) {
        Some(k) => Some(entries[k].value),
        None => None,
    }
}

/// The value of the text `key`.
pub open spec fn get_text(entries: Seq<EntryView>, key: Seq<char>) -> Option<NodeView> {
    get(entries, NodeView::String(key))
}

/// Whether the text `key` is a key.
pub open spec fn has_key(entries: Seq<EntryView>, key: Seq<char>) -> bool {
    get_text(entries, key) is Some
}

/// `find_key` finds the first entry with the key.
pub proof fn lemma_find_key(entries: Seq<EntryView>, key: NodeView)
    ensures
        match find_key(entries, key) {
            Some(k) => 0 <= k < entries.len() && entries[k].key == key && forall|j: int|
                0 <= j < k ==> (#[trigger] entries[j]).key != key,
            None => forall|j: int| 0 <= j < entries.len() ==> (#[trigger] entries[j]).key != key,
        },
    decreases entries.len(),
{
    if entries.len() > 0 && entries[0].key != key {
        lemma_find_key(entries.skip(1), key);
        assert forall|j: int| 1 <= j < entries.len() implies entries[j]
            == #[trigger] entries.skip(1)[j - 1] by {}
        match find_key(entries.skip(1), key) {
            Some(k) => {
                assert forall|j: int| 0 <= j < k + 1 implies (#[trigger] entries[j]).key != key by {
                    if j > 0 {
                        assert(entries.skip(1)[j - 1].key != key);
                    }
                }
            },
            None => {
                assert forall|j: int| 0 <= j < entries.len() implies (#[trigger] entries[j]).key
                    != key by {
                    if j > 0 {
                        assert(entries.skip(1)[j - 1].key != key);
                    }
                }
            },
        }
    }
}

/// The first entry with a key is found by what tells it apart.
pub proof fn lemma_key_is(entries: Seq<EntryView>, key: NodeView, k: int)
    requires
        0 <= k < entries.len(),
        entries[k].key == key,
        forall|j: int| 0 <= j < k ==> (#[trigger] entries[j]).key != key,
    ensures
        find_key(entries, key) == Some(k),
{
    lemma_find_key(entries, key);
    match find_key(entries, key) {
        Some(n) => {
            if n < k {
                assert(entries[n].key != key);
            }
        },
        None => {
            assert(entries[k].key != key);
        },
    }
}

/// Whether two values are equal.
pub fn same_value(a: &Node, b: &Node) -> (r: bool)
    ensures
        r == (a@ == b@),
    decreases a,
{
    match (a, b) {
        (Node::Null, Node::Null) => true,
        (Node::Bool(x), Node::Bool(y)) => *x == *y,
        (Node::Number(x), Node::Number(y)) => same(x.as_str(), y.as_str()),
        (Node::String(x), Node::String(y)) => same(x.as_str(), y.as_str()),
        (Node::Sequence(x), Node::Sequence(y)) => {
            proof {
                lemma_sequence_view(*x);
                lemma_sequence_view(*y);
            }
            let ghost xs = value_views(x@);
            let ghost ys = value_views(y@);
            if x.len() != y.len() {
                assert(xs.len() != ys.len());
                return false;
            }
            let mut i: usize = 0;
            while i < x.len()
                invariant
                    i <= x@.len(),
                    x@.len() == y@.len(),
                    xs == value_views(x@),
                    ys == value_views(y@),
                    a@ == NodeView::Sequence(xs),
                    b@ == NodeView::Sequence(ys),
                    a matches Node::Sequence(own) && own == x,
                    forall|j: int| 0 <= j < i ==> #[trigger] xs[j] == ys[j],
                decreases x@.len() - i,
            {
                assert(xs[i as int] == x@[i as int]@ && ys[i as int] == y@[i as int]@);
                if !same_value(&x[i], &y[i]) {
                    assert(xs[i as int] != ys[i as int]);
                    return false;
                }
                i += 1;
            }
            assert(xs =~= ys);
            true
        },
        (Node::Mapping(x), Node::Mapping(y)) => {
            proof {
                lemma_mapping_view(*x);
                lemma_mapping_view(*y);
            }
            let ghost xs = entry_views(x@);
            let ghost ys = entry_views(y@);
            if x.len() != y.len() {
                assert(xs.len() != ys.len());
                return false;
            }
            let mut i: usize = 0;
            while i < x.len()
                invariant
                    i <= x@.len(),
                    x@.len() == y@.len(),
                    xs == entry_views(x@),
                    ys == entry_views(y@),
                    a@ == NodeView::Mapping(xs),
                    b@ == NodeView::Mapping(ys),
                    a matches Node::Mapping(own) && own == x,
                    forall|j: int| 0 <= j < i ==> #[trigger] xs[j] == ys[j],
                decreases x@.len() - i,
            {
                assert(xs[i as int] == x@[i as int]@ && ys[i as int] == y@[i as int]@);
                if !same_value(&x[i].key, &y[i].key) || !same_value(&x[i].value, &y[i].value) {
                    assert(xs[i as int] != ys[i as int]);
                    return false;
                }
                i += 1;
            }
            assert(xs =~= ys);
            true
        },
        (Node::Tagged(s, x), Node::Tagged(t, y)) => same(s.as_str(), t.as_str())
            && same_value(&**x, &**y),
        _ => false,
    }
}

/// The position of the first entry with the key `key`.
pub fn index_of_key(entries: &Vec<Entry>, key: &Node) -> (r: Option<usize>)
    ensures
        match r {
            Some(k) => find_key(entry_views(entries@), key@) == Some(k as int) && k
                < entries@.len(),
            None => find_key(entry_views(entries@), key@) is None,
        },
{
    let ghost es = entry_views(entries@);
    let mut k: usize = 0;
    while k < entries.len()
        invariant
            k <= entries@.len(),
            es == entry_views(entries@),
            forall|j: int| 0 <= j < k ==> (#[trigger] es[j]).key != key@,
        decreases entries@.len() - k,
    {
        assert(es[k as int].key == entries@[k as int].key@);
        if same_value(&entries[k].key, key) {
            proof {
                lemma_key_is(es, key@, k as int);
            }
            return Some(k);
        }
        k += 1;
    }
    proof {
        lemma_find_key(es, key@);
    }
    None
}

/// The value of the text `key`.
pub fn text_entry<'a>(entries: &'a Vec<Entry>, key: &str) -> (r: Option<&'a Node>)
    ensures
        match r {
            Some(v) => get_text(entry_views(entries@), key@) == Some(v@),
            None => get_text(entry_views(entries@), key@) is None,
        },
{
    let wanted = Node::String(key.to_owned());
    match index_of_key(entries, &wanted) {
        Some(k) => Some(&entries[k].value),
        None => None,
    }
}

/// A value without the tags around it.
pub open spec fn untagged(v: NodeView) -> NodeView
    decreases v,
{
    match v {
        NodeView::Tagged(tag, inner) => untagged(*inner),
        _ => v,
    }
}

/// The text that a value holds, tagged or not.
pub open spec fn text_of(v: NodeView) -> Option<Seq<char>> {
    match untagged(v) {
        NodeView::String(s) => Some(s),
        _ => None,
    }
}

impl Node {
    /// The text that the value holds, tagged or not.
    pub fn as_text(&self) -> (r: Option<&str>)
        ensures
            match r {
                Some(s) => text_of(self@) == Some(s@),
                None => text_of(self@) is None,
            },
        decreases self,
    {
        match self {
            Node::String(s) => Some(s.as_str()),
            Node::Tagged(_, inner) => (**inner).as_text(),
            _ => None,
        }
    }

    /// Whether the value is a sequence, tagged or not.
    pub fn is_sequence(&self) -> (r: bool)
        ensures
            r == (untagged(self@) is Sequence),
        decreases self,
    {
        match self {
            Node::Sequence(_) => true,
            Node::Tagged(_, inner) => (**inner).is_sequence(),
            _ => false,
        }
    }
}

} // verus!
