use crate::lexicon::{LexiconNode, LexiconNodeView};
use crate::syntax::Key;
use vstd::prelude::*;

verus! {

/// The label of a trie edge: a category with the value bound to it.
pub type Label = (Key, Option<Key>);

/// One record of the trie's arena.
#[derive(Debug, PartialEq, Eq)]
pub struct Node {
    /// The labels on the way from the root to this record.
    pub key: Vec<Label>,
    /// What is stored under that path, each value once.
    pub values: Vec<LexiconNode>,
    /// The outgoing edges, each with the arena index it leads to.
    pub children: Vec<(Label, usize)>,
}

/// The mathematical content of a [`Node`].
pub struct NodeView {
    pub key: Seq<Label>,
    pub values: Seq<LexiconNodeView>,
    pub children: Seq<(Label, usize)>,
}

impl View for Node {
    type V = NodeView;

    open spec fn view(&self) -> NodeView {
        NodeView {
            key: self.key@,
            values: self.values@.map_values(|v: LexiconNode| v@),
            children: self.children@,
        }
    }
}

/// The record that the first of the edges `children` with the label
/// `label` leads to, if there is such an edge.
pub open spec fn edge_under(children: Seq<(Label, usize)>, label: Label) -> Option<usize>
    decreases children.len(),
{
    if children.len() == 0 {
        None
    } else if children[0].0 == label {
        Some(children[0].1)
    } else {
        edge_under(children.drop_first(), label)
    }
}

/// The first edge with a label is an edge with that label; where there is
/// none, no edge bears the label.
pub proof fn lemma_edge_under(children: Seq<(Label, usize)>, label: Label)
    ensures
        match edge_under(children, label) {
            Some(c) => exists|e: int|
                0 <= e < children.len() && (#[trigger] children[e]).0 == label && children[e].1 == c,
            None => forall|e: int| 0 <= e < children.len() ==> (#[trigger] children[e]).0 != label,
        },
    decreases children.len(),
{
    if children.len() > 0 {
        if children[0].0 == label {
            assert(children[0].0 == label && children[0].1 == children[0].1);
        } else {
            let rest = children.drop_first();
            lemma_edge_under(rest, label);
            match edge_under(rest, label) {
                Some(c) => {
                    let e = choose|e: int|
                        0 <= e < rest.len() && (#[trigger] rest[e]).0 == label && rest[e].1 == c;
                    assert(children[e + 1] == rest[e]);
                },
                None => {
                    assert forall|e: int| 0 <= e < children.len() implies (#[trigger] children[e]).0
                        != label by {
                        if e > 0 {
                            assert(rest[e - 1] == children[e]);
                        }
                    }
                },
            }
        }
    }
}

impl Node {
    /// Whether the record stores a value with the content `v`.
    pub open spec fn has_value(&self, v: LexiconNodeView) -> bool {
        exists|i: int| 0 <= i < self.values.len() && self.values[i]@ == v
    }

    /// Whether an edge labelled `label` leads from this record to `c`.
    pub open spec fn has_child(&self, label: Label, c: int) -> bool {
        exists|e: int|
            0 <= e < self.children.len() && (#[trigger] self.children[e]).0 == label
                && self.children[e].1 == c
    }

    /// A record for the empty path, with nothing stored.
    pub fn new() -> (r: Node)
        ensures
            r.key@ == Seq::<Label>::empty(),
            r.values@ == Seq::<LexiconNode>::empty(),
            r.children@ == Seq::<(Label, usize)>::empty(),
    {
        Node { key: Vec::new(), values: Vec::new(), children: Vec::new() }
    }

    /// A record for the path `key`, with nothing stored.
    pub fn from_key(key: Vec<Label>) -> (r: Node)
        ensures
            r.key == key,
            r.values@ == Seq::<LexiconNode>::empty(),
            r.children@ == Seq::<(Label, usize)>::empty(),
    {
        Node { key, values: Vec::new(), children: Vec::new() }
    }

    /// Stores `value` unless a value with the same content is stored
    /// already; says whether it was added.
    pub fn add_value(&mut self, value: LexiconNode) -> (r: bool)
        ensures
            r == !old(self).has_value(value@),
            final(self).key == old(self).key,
            final(self).children == old(self).children,
            final(self).values@ == (if r {
                old(self).values@.push(value)
            } else {
                old(self).values@
            }),
    {
        let mut i: usize = 0;
        while i < self.values.len()
            invariant
                *self == *old(self),
                i <= self.values.len(),
                forall|j: int| 0 <= j < i ==> self.values[j]@ != value@,
            decreases self.values.len() - i,
        {
            if self.values[i].equals(&value) {
                return false;
            }
            i = i + 1;
        }
        self.values.push(value);
        true
    }

    /// The record that the first edge labelled `label` leads to, if there
    /// is one.
    pub fn find_child(&self, label: &Label) -> (r: Option<usize>)
        ensures
            r == edge_under(self.children@, *label),
            match r {
                Some(c) => self.has_child(*label, c as int),
                None => forall|c: int| !self.has_child(*label, c),
            },
    {
        let mut e: usize = 0;
        assert(self.children@.skip(0) =~= self.children@);
        while e < self.children.len()
            invariant
                e <= self.children.len(),
                forall|j: int| 0 <= j < e ==> self.children[j].0 != *label,
                edge_under(self.children@, *label) == edge_under(self.children@.skip(e as int), *label),
            decreases self.children.len() - e,
        {
            let entry = self.children[e];
            assert(self.children@.skip(e as int)[0] == entry);
            assert(self.children@.skip(e as int).drop_first() =~= self.children@.skip(e + 1));
            if entry.0.0 == label.0 && entry.0.1 == label.1 {
                return Some(entry.1);
            }
            e = e + 1;
        }
        assert(self.children@.skip(e as int).len() == 0);
        None
    }
}

} // verus!
