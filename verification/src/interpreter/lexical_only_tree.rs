use super::syntax_tree::{SyntaxTree, SyntaxTreeError, SyntaxTreeView};
use super::tree_node::{TreeNode, TreeNodeView};
use crate::interner::{name_view, Interner};
use crate::syntax::Key;
use crate::syntax_node::{SyntaxNode, SyntaxNodeView};
use vstd::prelude::*;
use vstd::string::StringExecFns;

verus! {

/// A tree of lexical items only: what is left of a syntax tree when the
/// feature sets are taken out.
#[derive(Debug, PartialEq, Eq, Hash)]
pub enum LOT {
    Node { left: Box<LOT>, right: Box<LOT> },
    Leaf { value: Key },
    Empty,
}

/// Why a side of a tree of lexical items cannot be set.
#[derive(Debug, Clone, Copy, PartialEq, Eq, Structural)]
pub enum LOTError {
    /// Only a node has sides.
    NotANode,
}

/// The tree of lexical items below the child `child`, if there is one in
/// the arena.
pub open spec fn lot_of_child(tree: SyntaxTreeView, child: Option<usize>, fuel: nat) -> Option<
    Result<LOT, SyntaxTreeError>,
>
    decreases fuel, 0nat,
{
    match child {
        Some(idx) => if tree.has(idx) {
            Some(
                if fuel == 0 {
                    Err(SyntaxTreeError::NotATree(idx))
                } else {
                    lot_of(tree, tree.node(idx), (fuel - 1) as nat)
                },
            )
        } else {
            None
        },
        None => None,
    }
}

/// The tree of lexical items below the node `node`: a node with two
/// children is a node of the two trees below them; a node with one child is
/// the tree below that child; a node without children is a leaf if it holds
/// a lexical item, and nothing if it holds a feature set. No more than
/// `fuel` levels below the node are gone through.
pub open spec fn lot_of(tree: SyntaxTreeView, node: TreeNodeView, fuel: nat) -> Result<
    LOT,
    SyntaxTreeError,
>
    decreases fuel, 1nat,
{
    match (lot_of_child(tree, node.left, fuel), lot_of_child(tree, node.right, fuel)) {
        (Some(left), Some(right)) => match (left, right) {
            (Ok(left), Ok(right)) => Ok(LOT::Node { left: Box::new(left), right: Box::new(right) }),
            (Err(e), _) => Err(e),
            (_, Err(e)) => Err(e),
        },
        (Some(left), None) => left,
        (None, Some(right)) => right,
        (None, None) => match node.value {
            SyntaxNodeView::Lexi(lexi) => Ok(LOT::Leaf { value: lexi }),
            SyntaxNodeView::Feat(_) => Ok(LOT::Empty),
        },
    }
}

/// The tree of lexical items of the syntax tree `tree`.
pub open spec fn lot_of_tree(tree: SyntaxTreeView) -> Result<LOT, SyntaxTreeError> {
    match tree.tree_root {
        Some(idx) => if tree.has(idx) {
            lot_of(tree, tree.node(idx), tree.nodes.len())
        } else {
            Ok(LOT::Empty)
        },
        None => Ok(LOT::Empty),
    }
}

/// The trees of lexical items of the syntax trees `trees`, each once, in
/// the order in which they first occur; or the error of the first syntax
/// tree that is no tree.
pub open spec fn lots_of(trees: Seq<SyntaxTreeView>) -> Result<Seq<LOT>, SyntaxTreeError>
    decreases trees.len(),
{
    if trees.len() == 0 {
        Ok(Seq::empty())
    } else {
        match lots_of(trees.drop_last()) {
            Err(e) => Err(e),
            Ok(front) => match lot_of_tree(trees.last()) {
                Err(e) => Err(e),
                Ok(lot) => if front.contains(lot) {
                    Ok(front)
                } else {
                    Ok(front.push(lot))
                },
            },
        }
    }
}

/// If the first `n` syntax trees give an error, the syntax trees give it.
pub proof fn lemma_lots_of_fail(trees: Seq<SyntaxTreeView>, n: int)
    requires
        0 <= n <= trees.len(),
        lots_of(trees.take(n)) is Err,
    ensures
        lots_of(trees) == lots_of(trees.take(n)),
    decreases trees.len() - n,
{
    if n < trees.len() {
        assert(trees.take(n + 1).drop_last() =~= trees.take(n));
        lemma_lots_of_fail(trees, n + 1);
    } else {
        assert(trees.take(n) =~= trees);
    }
}

/// How the tree `lot` is written after the indentation `indent`: each
/// node and each leaf on a line of its own, in square brackets; a node
/// holds what is below it, which is indented by four blanks more.
pub open spec fn lot_text<I: Interner>(names: &I, lot: LOT, indent: Seq<char>) -> Option<Seq<char>>
    decreases lot,
{
    match lot {
        LOT::Node { left, right } => match (
            lot_text(names, *left, indent + "    "@),
            lot_text(names, *right, indent + "    "@),
        ) {
            (Some(left), Some(right)) => Some("\n"@ + indent + "["@ + left + " "@ + right + "]"@),
            _ => None,
        },
        LOT::Leaf { value } => match names.name_of(value) {
            Some(value) => Some("\n"@ + indent + "["@ + value + "]"@),
            None => None,
        },
        LOT::Empty => Some(Seq::empty()),
    }
}

impl Clone for LOT {
    fn clone(&self) -> (r: Self)
        ensures
            r == *self,
        decreases self,
    {
        match self {
            LOT::Node { left, right } => {
                let l: LOT = (**left).clone();
                let r: LOT = (**right).clone();
                LOT::Node { left: Box::new(l), right: Box::new(r) }
            },
            LOT::Leaf { value } => LOT::Leaf { value: *value },
            LOT::Empty => LOT::Empty,
        }
    }
}

impl LOT {
    /// A node with nothing on either side.
    pub fn new() -> (r: LOT)
        ensures
            r == (LOT::Node { left: Box::new(LOT::Empty), right: Box::new(LOT::Empty) }),
    {
        LOT::Node { left: Box::new(LOT::Empty), right: Box::new(LOT::Empty) }
    }

    /// The tree without lexical items.
    pub fn empty() -> (r: LOT)
        ensures
            r == LOT::Empty,
    {
        LOT::Empty
    }

    /// Puts a new node on the left.
    pub fn new_node_left(&mut self) -> (r: Result<(), LOTError>)
        ensures
            match *old(self) {
                LOT::Node { left, right } => r is Ok && *final(self) == (LOT::Node {
                    left: Box::new(
                        LOT::Node { left: Box::new(LOT::Empty), right: Box::new(LOT::Empty) },
                    ),
                    right,
                }),
                _ => r == Err::<(), LOTError>(LOTError::NotANode) && *final(self) == *old(self),
            },
    {
        match self {
            LOT::Node { left, .. } => {
                *left = Box::new(LOT::new());
                Ok(())
            },
            _ => Err(LOTError::NotANode),
        }
    }

    /// Puts a new node on the right.
    pub fn new_node_right(&mut self) -> (r: Result<(), LOTError>)
        ensures
            match *old(self) {
                LOT::Node { left, right } => r is Ok && *final(self) == (LOT::Node {
                    left,
                    right: Box::new(
                        LOT::Node { left: Box::new(LOT::Empty), right: Box::new(LOT::Empty) },
                    ),
                }),
                _ => r == Err::<(), LOTError>(LOTError::NotANode) && *final(self) == *old(self),
            },
    {
        match self {
            LOT::Node { right, .. } => {
                *right = Box::new(LOT::new());
                Ok(())
            },
            _ => Err(LOTError::NotANode),
        }
    }

    /// Puts a leaf for `value` on the left.
    pub fn new_leaf_left(&mut self, value: Key) -> (r: Result<(), LOTError>)
        ensures
            match *old(self) {
                LOT::Node { left, right } => r is Ok && *final(self) == (LOT::Node {
                    left: Box::new(LOT::Leaf { value }),
                    right,
                }),
                _ => r == Err::<(), LOTError>(LOTError::NotANode) && *final(self) == *old(self),
            },
    {
        match self {
            LOT::Node { left, .. } => {
                *left = Box::new(LOT::Leaf { value });
                Ok(())
            },
            _ => Err(LOTError::NotANode),
        }
    }

    /// Puts a leaf for `value` on the right.
    pub fn new_leaf_right(&mut self, value: Key) -> (r: Result<(), LOTError>)
        ensures
            match *old(self) {
                LOT::Node { left, right } => r is Ok && *final(self) == (LOT::Node {
                    left,
                    right: Box::new(LOT::Leaf { value }),
                }),
                _ => r == Err::<(), LOTError>(LOTError::NotANode) && *final(self) == *old(self),
            },
    {
        match self {
            LOT::Node { right, .. } => {
                *right = Box::new(LOT::Leaf { value });
                Ok(())
            },
            _ => Err(LOTError::NotANode),
        }
    }

    /// Whether the two trees are the same.
    pub fn equals(&self, other: &LOT) -> (r: bool)
        ensures
            r == (*self == *other),
        decreases self,
    {
        match (self, other) {
            (LOT::Node { left: la, right: ra }, LOT::Node { left: lb, right: rb }) => (**la).equals(
                &**lb,
            ) && (**ra).equals(&**rb),
            (LOT::Leaf { value: a }, LOT::Leaf { value: b }) => *a == *b,
            (LOT::Empty, LOT::Empty) => true,
            _ => false,
        }
    }

    /// The tree of lexical items below the child `child` of a node of
    /// `tree`.
    fn from_child(tree: &SyntaxTree, child: Option<usize>, fuel: usize) -> (r: Option<
        Result<LOT, SyntaxTreeError>,
    >)
        ensures
            r == lot_of_child(tree@, child, fuel as nat),
        decreases fuel, 0nat,
    {
        match child {
            Some(idx) => match tree.get_node(idx) {
                Some(node) => {
                    if fuel == 0 {
                        Some(Err(SyntaxTreeError::NotATree(idx)))
                    } else {
                        Some(Self::from_subtree(tree, node, fuel - 1))
                    }
                },
                None => None,
            },
            None => None,
        }
    }

    /// The tree of lexical items below the node `node` of `tree`.
    fn from_subtree(tree: &SyntaxTree, node: &TreeNode, fuel: usize) -> (r: Result<LOT, SyntaxTreeError>)
        ensures
            r == lot_of(tree@, node@, fuel as nat),
        decreases fuel, 1nat,
    {
        let left = Self::from_child(tree, node.get_left(), fuel);
        let right = Self::from_child(tree, node.get_right(), fuel);
        match (left, right) {
            (Some(left), Some(right)) => match (left, right) {
                (Ok(left), Ok(right)) => Ok(LOT::Node { left: Box::new(left), right: Box::new(right) }),
                (Err(e), _) => Err(e),
                (_, Err(e)) => Err(e),
            },
            (Some(left), None) => left,
            (None, Some(right)) => right,
            (None, None) => match node.get_value() {
                SyntaxNode::Lexi(lexi) => Ok(LOT::Leaf { value: *lexi }),
                _ => Ok(LOT::empty()),
            },
        }
    }

    /// The tree of lexical items of the syntax tree `tree`; an error if
    /// the syntax tree is no tree.
    pub fn from_syntax_tree(tree: &SyntaxTree) -> (r: Result<LOT, SyntaxTreeError>)
        ensures
            r == lot_of_tree(tree@),
    {
        match tree.get_root() {
            Some(root) => Self::from_subtree(tree, root, tree.get_size()),
            None => Ok(LOT::empty()),
        }
    }

    /// The trees of lexical items of the syntax trees `trees`, each once.
    pub fn from_syntax_trees(trees: &Vec<SyntaxTree>) -> (r: Result<Vec<LOT>, SyntaxTreeError>)
        ensures
            match lots_of(trees@.map_values(|t: SyntaxTree| t@)) {
                Ok(lots) => r is Ok && r->Ok_0@ == lots,
                Err(e) => r == Err::<Vec<LOT>, SyntaxTreeError>(e),
            },
    {
        let ghost all = trees@.map_values(|t: SyntaxTree| t@);
        let mut results: Vec<LOT> = Vec::new();
        let mut i: usize = 0;
        assert(all.take(0) =~= Seq::<SyntaxTreeView>::empty());
        while i < trees.len()
            invariant
                i <= trees.len(),
                all == trees@.map_values(|t: SyntaxTree| t@),
                lots_of(all.take(i as int)) == Ok::<Seq<LOT>, SyntaxTreeError>(results@),
            decreases trees.len() - i,
        {
            proof {
                assert(all.take(i + 1).drop_last() =~= all.take(i as int));
                assert(all.take(i + 1).last() == trees@[i as int]@);
            }
            let lot = match LOT::from_syntax_tree(&trees[i]) {
                Ok(lot) => lot,
                Err(e) => {
                    proof {
                        lemma_lots_of_fail(all, i + 1);
                    }
                    return Err(e);
                },
            };
            let mut known = false;
            let mut j: usize = 0;
            while j < results.len()
                invariant
                    j <= results.len(),
                    known == exists|k: int| 0 <= k < j && results@[k] == lot,
                decreases results.len() - j,
            {
                if results[j].equals(&lot) {
                    known = true;
                }
                j = j + 1;
            }
            if !known {
                results.push(lot);
            }
            i = i + 1;
        }
        assert(all.take(i as int) =~= all);
        Ok(results)
    }

    /// The tree as it is written after the indentation `indent`; nothing
    /// if a key has no name.
    fn write<I: Interner>(&self, names: &I, indent: &str) -> (r: Option<String>)
        ensures
            name_view(r) == lot_text(names, *self, indent@),
        decreases self,
    {
        match self {
            LOT::Node { left, right } => {
                let mut deeper = String::from_str(indent);
                deeper.append("    ");
                let left = (**left).write(names, deeper.as_str());
                let right = (**right).write(names, deeper.as_str());
                match (left, right) {
                    (Some(left), Some(right)) => {
                        let mut r = String::from_str("\n");
                        r.append(indent);
                        r.append("[");
                        r.append(left.as_str());
                        r.append(" ");
                        r.append(right.as_str());
                        r.append("]");
                        Some(r)
                    },
                    _ => None,
                }
            },
            LOT::Leaf { value } => match names.resolve(*value) {
                Some(value) => {
                    let mut r = String::from_str("\n");
                    r.append(indent);
                    r.append("[");
                    r.append(value.as_str());
                    r.append("]");
                    Some(r)
                },
                None => None,
            },
            LOT::Empty => Some(String::new()),
        }
    }

    /// The tree as it is written; nothing if a key has no name.
    pub fn to_string<I: Interner>(&self, names: &I) -> (r: Option<String>)
        ensures
            name_view(r) == lot_text(names, *self, Seq::empty()),
    {
        let r = self.write(names, "");
        proof {
            reveal_strlit("");
            assert(""@ =~= Seq::<char>::empty());
        }
        r
    }
}

} // verus!
