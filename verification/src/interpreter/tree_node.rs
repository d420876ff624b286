use crate::interner::{name_view, Interner};
use crate::syntax_node::{SyntaxNode, SyntaxNodeView};
use crate::text::{decimal, decimal_text};
use vstd::prelude::*;
use vstd::string::StringExecFns;

verus! {

/// One node of a syntax tree. Parent and children are indices into the
/// tree's arena.
#[derive(Debug, PartialEq, Eq, Hash)]
pub struct TreeNode {
    value: SyntaxNode,
    idx: usize,
    parent: Option<usize>,
    left: Option<usize>,
    right: Option<usize>,
}

/// The mathematical content of a [`TreeNode`].
pub struct TreeNodeView {
    pub value: SyntaxNodeView,
    pub idx: usize,
    pub parent: Option<usize>,
    pub left: Option<usize>,
    pub right: Option<usize>,
}

impl TreeNodeView {
    /// How the node is written: its index and its value. Nothing if a key
    /// has no name.
    pub open spec fn text<I: Interner>(self, names: &I) -> Option<Seq<char>> {
        match self.value.text(names) {
            Some(value) => Some(decimal(self.idx as nat) + " "@ + value),
            None => None,
        }
    }
}

impl View for TreeNode {
    type V = TreeNodeView;

    closed spec fn view(&self) -> TreeNodeView {
        TreeNodeView {
            value: self.value@,
            idx: self.idx,
            parent: self.parent,
            left: self.left,
            right: self.right,
        }
    }
}

impl Clone for TreeNode {
    fn clone(&self) -> (r: Self)
        ensures
            r@ == self@,
    {
        TreeNode {
            value: self.value.clone(),
            idx: self.idx,
            parent: self.parent,
            left: self.left,
            right: self.right,
        }
    }
}

impl TreeNode {
    pub fn new(
        value: SyntaxNode,
        idx: usize,
        parent: Option<usize>,
        left: Option<usize>,
        right: Option<usize>,
    ) -> (r: TreeNode)
        ensures
            r@ == (TreeNodeView { value: value@, idx, parent, left, right }),
    {
        TreeNode { value, idx, parent, left, right }
    }

    pub fn get_value(&self) -> (r: &SyntaxNode)
        ensures
            r@ == self@.value,
    {
        &self.value
    }

    pub fn get_value_mut(&mut self) -> (r: &mut SyntaxNode)
        ensures
            r@ == old(self)@.value,
            final(self)@ == (TreeNodeView { value: final(r)@, ..old(self)@ }),
    {
        &mut self.value
    }

    pub fn get_idx(&self) -> (r: usize)
        ensures
            r == self@.idx,
    {
        self.idx
    }

    pub fn set_idx(&mut self, idx: usize)
        ensures
            final(self)@ == (TreeNodeView { idx, ..old(self)@ }),
    {
        self.idx = idx;
    }

    pub fn get_parent(&self) -> (r: Option<usize>)
        ensures
            r == self@.parent,
    {
        self.parent
    }

    pub fn set_parent(&mut self, parent: Option<usize>)
        ensures
            final(self)@ == (TreeNodeView { parent, ..old(self)@ }),
    {
        self.parent = parent;
    }

    pub fn get_left(&self) -> (r: Option<usize>)
        ensures
            r == self@.left,
    {
        self.left
    }

    pub fn set_left(&mut self, left: Option<usize>)
        ensures
            final(self)@ == (TreeNodeView { left, ..old(self)@ }),
    {
        self.left = left;
    }

    pub fn get_right(&self) -> (r: Option<usize>)
        ensures
            r == self@.right,
    {
        self.right
    }

    pub fn set_right(&mut self, right: Option<usize>)
        ensures
            final(self)@ == (TreeNodeView { right, ..old(self)@ }),
    {
        self.right = right;
    }

    /// The node as it is written; nothing if a key has no name.
    pub fn to_string<I: Interner>(&self, names: &I) -> (r: Option<String>)
        ensures
            name_view(r) == self@.text(names),
    {
        match self.value.to_string(names) {
            Some(value) => {
                let mut r = decimal_text(self.idx);
                r.append(" ");
                r.append(value.as_str());
                Some(r)
            },
            None => None,
        }
    }
}

} // verus!
