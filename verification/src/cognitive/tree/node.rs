use super::error::NodeID;
use crate::lexicon::option_view;
use crate::syntax::{FeatureSet, Features, SyntaxValue, SyntaxValueView};
use vstd::prelude::*;

verus! {

/// One node of a derivation tree. Parent, children and the origin of a
/// moved constituent are indices into the tree's arena.
#[derive(Debug, PartialEq, Eq)]
pub struct Node {
    id: NodeID,
    value: SyntaxValue,
    done: bool,
    parent: Option<NodeID>,
    is_left: bool,
    project: Option<FeatureSet>,
    left: Option<NodeID>,
    right: Option<NodeID>,
    moved: Option<NodeID>,
}

/// The mathematical content of a [`Node`].
pub struct NodeView {
    pub id: NodeID,
    pub value: SyntaxValueView,
    /// Whether the node is complete.
    pub done: bool,
    pub parent: Option<NodeID>,
    /// Whether the node is, or last was, a left child.
    pub is_left: bool,
    /// The features to leave out when the node, once complete, hands its
    /// features to its parent; `None` if it hands on nothing.
    pub project: Option<Features>,
    pub left: Option<NodeID>,
    pub right: Option<NodeID>,
    /// Where the constituent was moved from.
    pub moved: Option<NodeID>,
}

impl NodeView {
    /// The content of a new node: incomplete, with no links.
    pub open spec fn new(id: NodeID, value: SyntaxValueView) -> NodeView {
        NodeView {
            id,
            value,
            done: false,
            parent: None,
            is_left: false,
            project: None,
            left: None,
            right: None,
            moved: None,
        }
    }

    /// The number of children.
    pub open spec fn number_of_children(self) -> nat {
        (if self.left is Some {
            1nat
        } else {
            0nat
        }) + (if self.right is Some {
            1nat
        } else {
            0nat
        })
    }

    /// The feature set that the node holds, if it holds one.
    pub open spec fn features(self) -> Option<Features> {
        match self.value {
            SyntaxValueView::Features(fs) => Some(fs),
            SyntaxValueView::Item(_) => None,
        }
    }
}

impl View for Node {
    type V = NodeView;

    closed spec fn view(&self) -> NodeView {
        NodeView {
            id: self.id,
            value: self.value@,
            done: self.done,
            parent: self.parent,
            is_left: self.is_left,
            project: option_view(self.project),
            left: self.left,
            right: self.right,
            moved: self.moved,
        }
    }
}

impl Clone for Node {
    fn clone(&self) -> (r: Self)
        ensures
            r@ == self@,
    {
        Node {
            id: self.id,
            value: self.value.clone(),
            done: self.done,
            parent: self.parent,
            is_left: self.is_left,
            project: match &self.project {
                Some(fs) => Some(fs.clone()),
                None => None,
            },
            left: self.left,
            right: self.right,
            moved: self.moved,
        }
    }
}

impl Node {
    /// A new node: incomplete, with no links.
    pub fn new(id: NodeID, value: SyntaxValue) -> (r: Self)
        ensures
            r@ == NodeView::new(id, value@),
    {
        Node {
            id,
            value,
            done: false,
            parent: None,
            is_left: false,
            project: None,
            left: None,
            right: None,
            moved: None,
        }
    }

    pub fn get_id(&self) -> (r: NodeID)
        ensures
            r == self@.id,
    {
        self.id
    }

    pub fn get_value(&self) -> (r: &SyntaxValue)
        ensures
            r@ == self@.value,
    {
        &self.value
    }

    pub fn if_done(&self) -> (r: bool)
        ensures
            r == self@.done,
    {
        self.done
    }

    pub fn set_done(&mut self)
        ensures
            final(self)@ == (NodeView { done: true, ..old(self)@ }),
    {
        self.done = true;
    }

    pub fn get_value_mut(&mut self) -> (r: &mut SyntaxValue)
        ensures
            r@ == old(self)@.value,
            final(self)@ == (NodeView { value: final(r)@, ..old(self)@ }),
    {
        &mut self.value
    }

    /// Takes the pending projection off the node.
    pub fn take_project(&mut self) -> (r: Option<FeatureSet>)
        ensures
            option_view(r) == old(self)@.project,
            final(self)@ == (NodeView { project: None, ..old(self)@ }),
    {
        self.project.take()
    }

    pub fn get_project(&self) -> (r: Option<&FeatureSet>)
        ensures
            match r {
                Some(fs) => self@.project == Some(fs@),
                None => self@.project is None,
            },
    {
        self.project.as_ref()
    }

    pub fn set_project(&mut self, project: Option<FeatureSet>)
        ensures
            final(self)@ == (NodeView { project: option_view(project), ..old(self)@ }),
    {
        self.project = project;
    }

    pub fn get_parent(&self) -> (r: Option<NodeID>)
        ensures
            r == self@.parent,
    {
        self.parent
    }

    pub fn set_parent(&mut self, parent: Option<NodeID>)
        ensures
            final(self)@ == (NodeView { parent, ..old(self)@ }),
    {
        self.parent = parent;
    }

    pub fn get_is_left(&self) -> (r: bool)
        ensures
            r == self@.is_left,
    {
        self.is_left
    }

    pub fn set_as_left(&mut self)
        ensures
            final(self)@ == (NodeView { is_left: true, ..old(self)@ }),
    {
        self.is_left = true;
    }

    pub fn set_as_right(&mut self)
        ensures
            final(self)@ == (NodeView { is_left: false, ..old(self)@ }),
    {
        self.is_left = false;
    }

    pub fn get_left(&self) -> (r: Option<NodeID>)
        ensures
            r == self@.left,
    {
        self.left
    }

    pub fn set_left(&mut self, left: Option<NodeID>)
        ensures
            final(self)@ == (NodeView { left, ..old(self)@ }),
    {
        self.left = left;
    }

    pub fn get_right(&self) -> (r: Option<NodeID>)
        ensures
            r == self@.right,
    {
        self.right
    }

    pub fn set_right(&mut self, right: Option<NodeID>)
        ensures
            final(self)@ == (NodeView { right, ..old(self)@ }),
    {
        self.right = right;
    }

    pub fn get_moved(&self) -> (r: Option<NodeID>)
        ensures
            r == self@.moved,
    {
        self.moved
    }

    pub fn set_moved(&mut self, moved: NodeID)
        ensures
            final(self)@ == (NodeView { moved: Some(moved), ..old(self)@ }),
    {
        self.moved = Some(moved);
    }

    pub fn number_of_children(&self) -> (r: usize)
        ensures
            r == self@.number_of_children(),
    {
        let l: usize = if self.left.is_some() {
            1
        } else {
            0
        };
        let r: usize = if self.right.is_some() {
            1
        } else {
            0
        };
        l + r
    }
}

} // verus!
