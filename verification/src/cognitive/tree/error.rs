use vstd::prelude::*;

verus! {

/// The index of a node in the arena of a derivation tree.
pub type NodeID = usize;

/// Why a step of the derivation tree cannot be taken.
#[derive(Debug, Clone, Copy, PartialEq, Eq, Structural)]
pub enum Error {
    /// The arena has no node with this index.
    NodeNotFound(NodeID),
    /// The node has no parent.
    NodeHasNoParent(NodeID),
    /// The first node has no child with the second index.
    NodeHasNoChildWithID(NodeID, NodeID),
    /// The first node has no parent with the second index.
    NodeHasNoParentWithID(NodeID, NodeID),
    /// The node holds a token where a feature set is required.
    NodeIsNotFeatures(NodeID),
    /// A merge of feature sets failed.
    Syntax(crate::syntax::Error),
    /// A key of the tree has no name, so the tree cannot be written.
    StdFmt,
    /// A walk over the arena was at this node after as many steps as the
    /// arena has nodes: the links do not form a tree.
    NotATree(NodeID),
}

} // verus!
