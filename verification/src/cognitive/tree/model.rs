use super::error::{Error, NodeID};
use super::node::{Node, NodeView};
use crate::cognitive::model::CognitiveModel;
use crate::lexicon::{option_view, LexiconEntry, LexiconEntryView, LexiconNode, LexiconNodeView};
use crate::syntax::Key;
use crate::syntax::{merged, FeatureSet, Features, SyntaxValue, SyntaxValueView};
use vstd::prelude::*;

verus! {

/// The mathematical content of a [`TreeModel`]: the arena, the root, the
/// two cursors, and the roots of the subtrees that were detached and await
/// reinsertion.
pub struct TreeView {
    pub nodes: Seq<NodeView>,
    pub root: NodeID,
    /// Where a new left child is attached.
    pub upper_cursor: NodeID,
    /// The frontier node: what is resolved next.
    pub lower_cursor: NodeID,
    pub unattached: Seq<NodeID>,
}

impl TreeView {
    /// The content of the empty tree.
    pub open spec fn empty() -> TreeView {
        TreeView {
            nodes: Seq::empty(),
            root: 0,
            upper_cursor: 0,
            lower_cursor: 0,
            unattached: Seq::empty(),
        }
    }

    /// Whether the arena has a node with the index `id`.
    pub open spec fn has(self, id: NodeID) -> bool {
        id < self.nodes.len()
    }

    /// The node with the index `id`.
    pub open spec fn node(self, id: NodeID) -> NodeView {
        self.nodes[id as int]
    }

    /// The tree with `node` in the place of the node `id`.
    pub open spec fn with_node(self, id: NodeID, node: NodeView) -> TreeView {
        TreeView { nodes: self.nodes.update(id as int, node), ..self }
    }

    /// The tree with a new node for `value` appended to the arena, and the
    /// new node's index.
    pub open spec fn new_node(self, value: SyntaxValueView) -> (TreeView, NodeID) {
        let id = self.nodes.len() as NodeID;
        (TreeView { nodes: self.nodes.push(NodeView::new(id, value)), ..self }, id)
    }

    /// The parent of the node `id`.
    pub open spec fn parent_of(self, id: NodeID) -> Result<NodeID, Error> {
        if !self.has(id) {
            Err(Error::NodeNotFound(id))
        } else {
            match self.node(id).parent {
                Some(parent) => Ok(parent),
                None => Err(Error::NodeHasNoParent(id)),
            }
        }
    }

    /// The feature set that the node `id` holds.
    pub open spec fn features_of(self, id: NodeID) -> Result<Features, Error> {
        if !self.has(id) {
            Err(Error::NodeNotFound(id))
        } else {
            match self.node(id).value {
                SyntaxValueView::Features(fs) => Ok(fs),
                SyntaxValueView::Item(_) => Err(Error::NodeIsNotFeatures(id)),
            }
        }
    }

    /// The node `id` marked complete.
    pub open spec fn set_done(self, id: NodeID) -> (TreeView, Result<(), Error>) {
        if !self.has(id) {
            (self, Err(Error::NodeNotFound(id)))
        } else {
            (self.with_node(id, NodeView { done: true, ..self.node(id) }), Ok(()))
        }
    }

    /// The pending projection of the node `id` replaced by `project`.
    pub open spec fn set_project(self, id: NodeID, project: Option<Features>) -> (
        TreeView,
        Result<(), Error>,
    ) {
        if !self.has(id) {
            (self, Err(Error::NodeNotFound(id)))
        } else {
            (self.with_node(id, NodeView { project, ..self.node(id) }), Ok(()))
        }
    }

    /// The node `from` recorded as moved from `to`.
    pub open spec fn set_moved(self, from: NodeID, to: NodeID) -> (TreeView, Result<(), Error>) {
        if !self.has(from) {
            (self, Err(Error::NodeNotFound(from)))
        } else {
            (self.with_node(from, NodeView { moved: Some(to), ..self.node(from) }), Ok(()))
        }
    }

    /// `child` made the left or the right child of `parent`: first the
    /// parent's link is set, then the child's. Nothing that the two slots
    /// held before is detached.
    pub open spec fn set_relation(self, parent: NodeID, child: NodeID, child_is_left: bool) -> (
        TreeView,
        Result<(), Error>,
    ) {
        if !self.has(parent) {
            (self, Err(Error::NodeNotFound(parent)))
        } else {
            let linked = if child_is_left {
                NodeView { left: Some(child), ..self.node(parent) }
            } else {
                NodeView { right: Some(child), ..self.node(parent) }
            };
            let s = self.with_node(parent, linked);
            if !s.has(child) {
                (s, Err(Error::NodeNotFound(child)))
            } else {
                (
                    s.with_node(
                        child,
                        NodeView { parent: Some(parent), is_left: child_is_left, ..s.node(child) },
                    ),
                    Ok(()),
                )
            }
        }
    }

    /// The link between `parent` and `child` removed from both: first from
    /// the parent, where `child` must be a child, then from the child, whose
    /// parent must be `parent`.
    pub open spec fn delete_relation(self, parent: NodeID, child: NodeID) -> (
        TreeView,
        Result<(), Error>,
    ) {
        if !self.has(parent) {
            (self, Err(Error::NodeNotFound(parent)))
        } else if self.node(parent).left != Some(child) && self.node(parent).right != Some(child) {
            (self, Err(Error::NodeHasNoChildWithID(parent, child)))
        } else {
            let unlinked = if self.node(parent).left == Some(child) {
                NodeView { left: None, ..self.node(parent) }
            } else {
                NodeView { right: None, ..self.node(parent) }
            };
            let s = self.with_node(parent, unlinked);
            if !s.has(child) {
                (s, Err(Error::NodeNotFound(child)))
            } else if s.node(child).parent != Some(parent) {
                (s, Err(Error::NodeHasNoParentWithID(child, parent)))
            } else {
                (s.with_node(child, NodeView { parent: None, ..s.node(child) }), Ok(()))
            }
        }
    }

    /// `child` attached as the left child of the upper cursor. A subtree
    /// that hangs there is detached first and put with the unattached ones.
    /// The lower cursor moves to `child`.
    pub open spec fn add_left(self, child: NodeID) -> (TreeView, Result<(), Error>) {
        let parent = self.upper_cursor;
        if !self.has(parent) {
            (self, Err(Error::NodeNotFound(parent)))
        } else {
            let (s1, r1) = match self.node(parent).left {
                Some(old_left) => {
                    let (s, r) = self.delete_relation(parent, old_left);
                    if r is Ok {
                        (TreeView { unattached: s.unattached.push(old_left), ..s }, r)
                    } else {
                        (s, r)
                    }
                },
                None => (self, Ok(())),
            };
            if r1 is Err {
                (s1, r1)
            } else {
                let (s2, r2) = s1.set_relation(parent, child, true);
                if r2 is Err {
                    (s2, r2)
                } else {
                    (TreeView { lower_cursor: child, ..s2 }, Ok(()))
                }
            }
        }
    }

    /// `child` attached as the right child of the lower cursor. Both
    /// cursors move to `child`.
    pub open spec fn add_right(self, child: NodeID) -> (TreeView, Result<(), Error>) {
        let (s, r) = self.set_relation(self.lower_cursor, child, false);
        if r is Err {
            (s, r)
        } else {
            (TreeView { lower_cursor: child, upper_cursor: child, ..s }, Ok(()))
        }
    }

    /// `child` attached on the left or on the right.
    pub open spec fn add_child(self, child: NodeID, is_left: bool) -> (TreeView, Result<(), Error>) {
        if is_left {
            self.add_left(child)
        } else {
            self.add_right(child)
        }
    }

    /// The features of the node `from`, but for the pairs that `ignore`
    /// holds identically, merged onto the features of its parent.
    pub open spec fn project(self, from: NodeID, ignore: Features) -> (TreeView, Result<(), Error>) {
        match self.parent_of(from) {
            Err(e) => (self, Err(e)),
            Ok(parent) => match self.features_of(from) {
                Err(e) => (self, Err(e)),
                Ok(from_fs) => match self.features_of(parent) {
                    Err(e) => (self, Err(e)),
                    Ok(onto) => match merged(from_fs, onto, ignore) {
                        Err(e) => (self, Err(Error::Syntax(e))),
                        Ok(m) => (
                            self.with_node(
                                parent,
                                NodeView { value: SyntaxValueView::Features(m), ..self.node(parent) },
                            ),
                            Ok(()),
                        ),
                    },
                },
            },
        }
    }
}

/// A list of nodes to visit, each with the node that it hangs under.
pub type Worklist = Seq<(NodeID, Option<NodeID>)>;

impl TreeView {
    /// A subtree for the lexicon node `value` built and attached on the
    /// left or on the right; the index of its root. A function is built as
    /// its result with the argument as a child on the other side; a moved
    /// feature set records `trigger` as its origin.
    pub open spec fn append_child(self, value: LexiconNodeView, trigger: NodeID, child_is_left: bool) -> (
        TreeView,
        Result<NodeID, Error>,
    )
        decreases value,
    {
        match value {
            LexiconNodeView::Value { value } => {
                let (s1, id) = self.new_node(value);
                let (s2, r2) = s1.add_child(id, child_is_left);
                match r2 {
                    Err(e) => (s2, Err(e)),
                    Ok(_) => (s2, Ok(id)),
                }
            },
            LexiconNodeView::Lambda { from, to, project } => {
                let (s1, id) = self.new_node(SyntaxValueView::Features(to));
                let (s2, r2) = s1.add_child(id, child_is_left);
                match r2 {
                    Err(e) => (s2, Err(e)),
                    Ok(_) => {
                        let (s3, r3) = s2.append_child(*from, trigger, !child_is_left);
                        match r3 {
                            Err(e) => (s3, Err(e)),
                            Ok(argument) => if project {
                                match s3.features_of(argument) {
                                    Err(e) => (s3, Err(e)),
                                    Ok(fs) => (s3.set_project(argument, Some(fs)).0, Ok(id)),
                                }
                            } else {
                                (s3, Ok(id))
                            },
                        }
                    },
                }
            },
            LexiconNodeView::Moved { from } => {
                let (s1, id) = self.new_node(SyntaxValueView::Features(from));
                let (s2, r2) = s1.add_child(id, child_is_left);
                match r2 {
                    Err(e) => (s2, Err(e)),
                    Ok(_) => {
                        let (s3, r3) = s2.set_moved(id, trigger);
                        match r3 {
                            Err(e) => (s3, Err(e)),
                            Ok(_) => (s3, Ok(id)),
                        }
                    },
                }
            },
        }
    }

    /// The nearest node, from `from` upwards, that is no left child: the
    /// next place where a left child can be attached. The climb gives up
    /// after `fuel` steps.
    pub open spec fn climb(self, from: NodeID, fuel: nat) -> Result<NodeID, Error>
        decreases fuel,
    {
        if !self.has(from) {
            Err(Error::NodeNotFound(from))
        } else if !self.node(from).is_left {
            Ok(from)
        } else if fuel == 0 {
            Err(Error::NotATree(from))
        } else {
            match self.node(from).parent {
                None => Err(Error::NodeHasNoParent(from)),
                Some(parent) => self.climb(parent, (fuel - 1) as nat),
            }
        }
    }

    /// Saturation: if the node `cur` is an incomplete left child and holds
    /// every feature of its parent `parent`, its other features are merged
    /// onto the parent and both are marked complete.
    pub open spec fn saturate(self, cur: NodeID, parent: NodeID) -> (TreeView, Result<(), Error>) {
        if !self.node(cur).done && self.node(cur).is_left {
            match self.features_of(cur) {
                Err(e) => (self, Err(e)),
                Ok(cur_fs) => match self.features_of(parent) {
                    Err(e) => (self, Err(e)),
                    Ok(parent_fs) => if parent_fs.submap_of(cur_fs) {
                        let (s1, r1) = self.project(cur, parent_fs);
                        if r1 is Err {
                            (s1, r1)
                        } else {
                            let (s2, r2) = s1.set_done(cur);
                            if r2 is Err {
                                (s2, r2)
                            } else {
                                s2.set_done(parent)
                            }
                        }
                    } else {
                        (self, Ok(()))
                    },
                },
            }
        } else {
            (self, Ok(()))
        }
    }

    /// The upward pass, from the lower cursor. It stops at a node without
    /// a parent and at an incomplete node. A complete node hands its
    /// features to its parent if a projection is pending on it; then the
    /// lower cursor moves to the parent and the upper cursor to the next
    /// place for a left child. The pass gives up after `fuel` moves.
    pub open spec fn try_project(self, fuel: nat) -> (TreeView, Result<(), Error>)
        decreases fuel,
    {
        let cur = self.lower_cursor;
        match self.parent_of(cur) {
            Err(_) => (self, Ok(())),
            Ok(parent) => {
                let (s1, r1) = self.saturate(cur, parent);
                if r1 is Err {
                    (s1, r1)
                } else if !s1.has(cur) {
                    (s1, Err(Error::NodeNotFound(cur)))
                } else if !s1.node(cur).done {
                    (s1, Ok(()))
                } else {
                    let s2 = s1.set_project(cur, None).0;
                    let (s3, r3) = match s1.node(cur).project {
                        Some(ignore) => s2.project(cur, ignore),
                        None => (s2, Ok(())),
                    };
                    if r3 is Err {
                        (s3, r3)
                    } else {
                        let s4 = TreeView { lower_cursor: parent, upper_cursor: parent, ..s3 };
                        match s4.climb(parent, s4.nodes.len()) {
                            Err(e) => (s4, Err(e)),
                            Ok(upper) => {
                                let s5 = TreeView { upper_cursor: upper, ..s4 };
                                if fuel == 0 {
                                    (s5, Err(Error::NotATree(parent)))
                                } else {
                                    s5.try_project((fuel - 1) as nat)
                                }
                            },
                        }
                    }
                }
            },
        }
    }

    /// The frontier node is marked complete and gets a new parent built
    /// from `value`, in the slot that it vacates; a projection pending on
    /// it passes to the new parent. With `with_project`, the frontier
    /// node's features, but for those in `with_project`, are merged onto the
    /// new parent at once. If building the subtree moved the upper cursor,
    /// the subtree detached last is reattached there. The upward pass
    /// follows.
    pub open spec fn insert_parent(self, value: LexiconNodeView, with_project: Option<Features>) -> (
        TreeView,
        Result<(), Error>,
    ) {
        let cur = self.lower_cursor;
        let old_upper = self.upper_cursor;
        match self.parent_of(cur) {
            Err(e) => (self, Err(e)),
            Ok(parent) => {
                let cur_is_left = self.node(cur).is_left;
                let (s1, r1) = self.delete_relation(parent, cur);
                if r1 is Err {
                    (s1, r1)
                } else {
                    let (s2, r2) = s1.set_done(cur);
                    if r2 is Err {
                        (s2, r2)
                    } else {
                        let s3 = TreeView { lower_cursor: parent, ..s2 };
                        let (s4, r4) = s3.append_child(value, cur, cur_is_left);
                        match r4 {
                            Err(e) => (s4, Err(e)),
                            Ok(new_parent) => s4.adopt(new_parent, cur, cur_is_left, old_upper, with_project),
                        }
                    }
                }
            },
        }
    }

    /// The second half of [`Self::insert_parent`]: `cur` is hung under
    /// `new_parent`, obligations are passed on, a detached subtree is
    /// reattached, and the upward pass runs.
    pub open spec fn adopt(
        self,
        new_parent: NodeID,
        cur: NodeID,
        cur_is_left: bool,
        old_upper: NodeID,
        with_project: Option<Features>,
    ) -> (TreeView, Result<(), Error>) {
        let (s1, r1) = self.set_relation(new_parent, cur, cur_is_left);
        if r1 is Err {
            (s1, r1)
        } else {
            let pending = s1.node(cur).project;
            let s2 = s1.set_project(cur, None).0;
            let (s3, r3) = if pending is Some {
                s2.set_project(new_parent, pending)
            } else {
                (s2, Ok(()))
            };
            if r3 is Err {
                (s3, r3)
            } else {
                let (s4, r4) = match with_project {
                    Some(ignore) => s3.project(cur, ignore),
                    None => (s3, Ok(())),
                };
                if r4 is Err {
                    (s4, r4)
                } else {
                    let (s5, r5) = if old_upper != s4.upper_cursor && s4.unattached.len() > 0 {
                        (TreeView { unattached: s4.unattached.drop_last(), ..s4 }).add_left(
                            s4.unattached.last(),
                        )
                    } else {
                        (s4, Ok(()))
                    };
                    if r5 is Err {
                        (s5, r5)
                    } else {
                        s5.try_project(s5.nodes.len())
                    }
                }
            }
        }
    }

    /// Whether the node `id`, visited under `parent`, is vacuous: both hold
    /// feature sets, the node's is a subset of the parent's, and the parent
    /// has no other child.
    pub open spec fn vacuous(self, id: NodeID, parent: NodeID) -> bool {
        &&& self.node(id).features() is Some
        &&& self.node(parent).features() is Some
        &&& self.node(id).features()->0.submap_of(self.node(parent).features()->0)
        &&& self.node(parent).number_of_children() == 1
    }

    /// The child `child` of the spliced node `id`, if there is one, is hung
    /// under `parent` on the same side, and is to be visited under it.
    pub open spec fn rehang(self, work: Worklist, id: NodeID, child: Option<NodeID>, parent: NodeID, is_left: bool) -> (
        TreeView,
        Result<(), Error>,
        Worklist,
    ) {
        match child {
            None => (self, Ok(()), work),
            Some(c) => {
                let (s1, r1) = self.delete_relation(id, c);
                if r1 is Err {
                    (s1, r1, work)
                } else {
                    let (s2, r2) = s1.set_relation(parent, c, is_left);
                    if r2 is Err {
                        (s2, r2, work)
                    } else {
                        (s2, Ok(()), work.push((c, Some(parent))))
                    }
                }
            },
        }
    }

    /// The list `work` with the child `child`, if there is one, to be
    /// visited under `id`.
    pub open spec fn visit_later(work: Worklist, child: Option<NodeID>, id: NodeID) -> Worklist {
        match child {
            None => work,
            Some(c) => work.push((c, Some(id))),
        }
    }

    /// The top-down walk of pruning: the node on top of `work` is visited.
    /// A vacuous node is spliced out: it is detached from its parent, and
    /// its children are hung under the parent, left on the left and right
    /// on the right, to be visited under it. The children of any other node
    /// are visited under that node. The walk gives up after `fuel` visits.
    pub open spec fn prune_walk(self, work: Worklist, fuel: nat) -> (TreeView, Result<(), Error>)
        decreases fuel,
    {
        if work.len() == 0 {
            (self, Ok(()))
        } else if fuel == 0 {
            (self, Err(Error::NotATree(work.last().0)))
        } else {
            let (id, parent) = work.last();
            let rest = work.drop_last();
            if !self.has(id) {
                (self, Err(Error::NodeNotFound(id)))
            } else if parent is Some && !self.has(parent->0) {
                (self, Err(Error::NodeNotFound(parent->0)))
            } else {
                let left = self.node(id).left;
                let right = self.node(id).right;
                if parent is Some && self.vacuous(id, parent->0) {
                    let p = parent->0;
                    let (s1, r1) = self.delete_relation(p, id);
                    if r1 is Err {
                        (s1, r1)
                    } else {
                        let (s2, r2, w2) = s1.rehang(rest, id, left, p, true);
                        if r2 is Err {
                            (s2, r2)
                        } else {
                            let (s3, r3, w3) = s2.rehang(w2, id, right, p, false);
                            if r3 is Err {
                                (s3, r3)
                            } else {
                                s3.prune_walk(w3, (fuel - 1) as nat)
                            }
                        }
                    }
                } else {
                    self.prune_walk(
                        Self::visit_later(Self::visit_later(rest, left, id), right, id),
                        (fuel - 1) as nat,
                    )
                }
            }
        }
    }

    /// Pruning: the walk from the node 0, with as many visits as the arena
    /// has nodes.
    pub open spec fn prune(self) -> (TreeView, Result<(), Error>) {
        if self.nodes.len() == 0 {
            (self, Ok(()))
        } else {
            self.prune_walk(seq![(0usize, None::<NodeID>)], self.nodes.len())
        }
    }
}

/// Whether the trees `a` and `b` have as many nodes, and each node has in
/// both the same number, value, completion mark, pending projection and
/// origin: they differ in the links between the nodes at most.
pub open spec fn same_nodes(a: TreeView, b: TreeView) -> bool {
    &&& a.nodes.len() == b.nodes.len()
    &&& forall|i: int|
        0 <= i < a.nodes.len() ==> {
            &&& (#[trigger] a.nodes[i]).id == b.nodes[i].id
            &&& a.nodes[i].value == b.nodes[i].value
            &&& a.nodes[i].done == b.nodes[i].done
            &&& a.nodes[i].project == b.nodes[i].project
            &&& a.nodes[i].moved == b.nodes[i].moved
        }
}

/// Whether the trees `a` and `b` differ in their links at most, and have
/// the same cursors and detached subtrees.
pub open spec fn same_but_links(a: TreeView, b: TreeView) -> bool {
    &&& same_nodes(a, b)
    &&& a.root == b.root
    &&& a.upper_cursor == b.upper_cursor
    &&& a.lower_cursor == b.lower_cursor
    &&& a.unattached == b.unattached
}

/// Setting and deleting a link changes links only.
pub proof fn lemma_relations_change_links_only(tree: TreeView, parent: NodeID, child: NodeID, is_left: bool)
    ensures
        same_but_links(tree, tree.set_relation(parent, child, is_left).0),
        same_but_links(tree, tree.delete_relation(parent, child).0),
{
}

/// Attaching a node changes links only, but for the cursors and the
/// detached subtrees; attached on the left, the node is the frontier node.
pub proof fn lemma_add_left_changes_links_only(tree: TreeView, child: NodeID)
    ensures
        same_nodes(tree, tree.add_left(child).0),
        tree.add_left(child).1 is Ok ==> tree.add_left(child).0.lower_cursor == child && tree.has(child),
{
    let parent = tree.upper_cursor;
    if tree.has(parent) {
        match tree.node(parent).left {
            Some(old_left) => {
                lemma_relations_change_links_only(tree, parent, old_left, true);
                let (s, r) = tree.delete_relation(parent, old_left);
                if r is Ok {
                    let s1 = TreeView { unattached: s.unattached.push(old_left), ..s };
                    lemma_relations_change_links_only(s1, parent, child, true);
                }
            },
            None => {
                lemma_relations_change_links_only(tree, parent, child, true);
            },
        }
    }
}

/// Hanging a child of a spliced node under the node's parent changes
/// links only.
pub proof fn lemma_rehang_changes_links_only(
    tree: TreeView,
    work: Worklist,
    id: NodeID,
    child: Option<NodeID>,
    parent: NodeID,
    is_left: bool,
)
    ensures
        same_but_links(tree, tree.rehang(work, id, child, parent, is_left).0),
{
    match child {
        None => {},
        Some(c) => {
            lemma_relations_change_links_only(tree, id, c, is_left);
            let (s1, r1) = tree.delete_relation(id, c);
            if r1 is Ok {
                lemma_relations_change_links_only(s1, parent, c, is_left);
            }
        },
    }
}

/// The walk of pruning changes links only, whether it comes to its end or
/// fails on the way.
pub proof fn lemma_prune_walk_changes_links_only(tree: TreeView, work: Worklist, fuel: nat)
    ensures
        same_but_links(tree, tree.prune_walk(work, fuel).0),
    decreases fuel,
{
    if work.len() > 0 && fuel > 0 {
        let (id, parent) = work.last();
        let rest = work.drop_last();
        if tree.has(id) && !(parent is Some && !tree.has(parent->0)) {
            let left = tree.node(id).left;
            let right = tree.node(id).right;
            if parent is Some && tree.vacuous(id, parent->0) {
                let p = parent->0;
                lemma_relations_change_links_only(tree, p, id, true);
                let (s1, r1) = tree.delete_relation(p, id);
                if r1 is Ok {
                    lemma_rehang_changes_links_only(s1, rest, id, left, p, true);
                    let (s2, r2, w2) = s1.rehang(rest, id, left, p, true);
                    if r2 is Ok {
                        lemma_rehang_changes_links_only(s2, w2, id, right, p, false);
                        let (s3, r3, w3) = s2.rehang(w2, id, right, p, false);
                        if r3 is Ok {
                            lemma_prune_walk_changes_links_only(s3, w3, (fuel - 1) as nat);
                        }
                    }
                }
            } else {
                lemma_prune_walk_changes_links_only(
                    tree,
                    TreeView::visit_later(TreeView::visit_later(rest, left, id), right, id),
                    (fuel - 1) as nat,
                );
            }
        }
    }
}

/// Pruning changes links only: every node keeps its value, and the
/// cursors stay where they are.
pub proof fn lemma_prune_changes_links_only(tree: TreeView)
    ensures
        same_but_links(tree, tree.prune().0),
{
    if tree.nodes.len() > 0 {
        lemma_prune_walk_changes_links_only(tree, seq![(0usize, None::<NodeID>)], tree.nodes.len());
    }
}

/// A new tree is not complete, and wonders about its target.
pub proof fn lemma_new_tree_wonders_about_target(target: Features)
    ensures
        !TreeModel::understood_spec(TreeModel::init_spec(target)),
        TreeModel::wonder_spec(TreeModel::init_spec(target)) == Some(
            SyntaxValueView::Features(target),
        ),
{
}

/// A tree that has taken a token wonders about that token, and is not
/// complete.
pub proof fn lemma_tree_wonders_about_token(tree: TreeView, token: Key)
    requires
        tree.nodes.len() < usize::MAX,
        TreeModel::receive_spec(tree, token).1 is Ok,
    ensures
        TreeModel::wonder_spec(TreeModel::receive_spec(tree, token).0) == Some(
            SyntaxValueView::Item(token),
        ),
        !TreeModel::understood_spec(TreeModel::receive_spec(tree, token).0),
{
    let (s, id) = tree.new_node(SyntaxValueView::Item(token));
    lemma_add_left_changes_links_only(s, id);
    assert(s.nodes[id as int].value == SyntaxValueView::Item(token));
}

/// A derivation tree: an arena of nodes with two cursors.
#[derive(Debug, PartialEq, Eq)]
pub struct TreeModel {
    nodes: Vec<Node>,
    root: NodeID,
    upper_cursor: NodeID,
    lower_cursor: NodeID,
    unattached: Vec<NodeID>,
}

impl View for TreeModel {
    type V = TreeView;

    closed spec fn view(&self) -> TreeView {
        TreeView {
            nodes: self.nodes@.map_values(|n: Node| n@),
            root: self.root,
            upper_cursor: self.upper_cursor,
            lower_cursor: self.lower_cursor,
            unattached: self.unattached@,
        }
    }
}

// tree-level methods
impl TreeModel {
    /// The empty tree.
    pub fn new() -> (r: Self)
        ensures
            r@ == TreeView::empty(),
    {
        let r = TreeModel {
            nodes: Vec::new(),
            root: 0,
            upper_cursor: 0,
            lower_cursor: 0,
            unattached: Vec::new(),
        };
        assert(r@.nodes =~= Seq::<NodeView>::empty());
        r
    }

    /// The number of nodes in the arena.
    pub fn size(&self) -> (r: usize)
        ensures
            r == self@.nodes.len(),
    {
        self.nodes.len()
    }

    /// Whether the arena has no node.
    pub fn is_empty(&self) -> (r: bool)
        ensures
            r == (self@.nodes.len() == 0),
    {
        self.nodes.len() == 0
    }

    /// The root of the tree.
    pub fn get_root(&self) -> (r: NodeID)
        ensures
            r == self@.root,
    {
        self.root
    }

    /// The frontier node.
    pub fn get_lower_cursor(&self) -> (r: NodeID)
        ensures
            r == self@.lower_cursor,
    {
        self.lower_cursor
    }

    /// Where a new left child is attached.
    pub fn get_upper_cursor(&self) -> (r: NodeID)
        ensures
            r == self@.upper_cursor,
    {
        self.upper_cursor
    }

    /// The nodes of the arena.
    pub(crate) fn nodes_ref(&self) -> (r: &Vec<Node>)
        ensures
            r@.len() == self@.nodes.len(),
            forall|i: int| 0 <= i < r@.len() ==> (#[trigger] r@[i])@ == self@.nodes[i],
    {
        &self.nodes
    }

    /// The roots of the detached subtrees, the last detached last.
    pub fn get_unattached(&self) -> (r: &Vec<NodeID>)
        ensures
            r@ == self@.unattached,
    {
        &self.unattached
    }
}

// node-level methods
impl TreeModel {
    /// Appends a new node for `value` to the arena.
    pub fn new_node(&mut self, value: SyntaxValue) -> (id: NodeID)
        ensures
            (final(self)@, id) == old(self)@.new_node(value@),
    {
        let id = self.size();
        self.nodes.push(Node::new(id, value));
        assert(self@.nodes =~= old(self)@.new_node(value@).0.nodes);
        id
    }

    /// The node `id`.
    pub fn get_node(&self, id: NodeID) -> (r: Result<&Node, Error>)
        ensures
            self@.has(id) ==> r is Ok && r->Ok_0@ == self@.node(id),
            !self@.has(id) ==> r == Err::<&Node, Error>(Error::NodeNotFound(id)),
    {
        if id < self.nodes.len() {
            Ok(&self.nodes[id])
        } else {
            Err(Error::NodeNotFound(id))
        }
    }

    /// The node `id`, to be changed.
    pub fn get_node_mut(&mut self, id: NodeID) -> (r: Result<&mut Node, Error>)
        ensures
            match r {
                Ok(node) => old(self)@.has(id) && node@ == old(self)@.node(id) && final(self)@ == old(
                    self,
                )@.with_node(id, final(node)@),
                Err(e) => !old(self)@.has(id) && e == Error::NodeNotFound(id) && final(self)@ == old(
                    self,
                )@,
            },
    {
        if id < self.nodes.len() {
            let ghost before = self.nodes@;
            let node = &mut self.nodes[id];
            proof {
                assert(before.map_values(|n: Node| n@).update(id as int, final(node)@)
                    =~= before.update(id as int, *final(node)).map_values(|n: Node| n@));
            }
            Ok(node)
        } else {
            Err(Error::NodeNotFound(id))
        }
    }

    // node self
    /// What the node `id` holds.
    pub fn get_value(&self, id: NodeID) -> (r: Result<&SyntaxValue, Error>)
        ensures
            self@.has(id) ==> r is Ok && r->Ok_0@ == self@.node(id).value,
            !self@.has(id) ==> r == Err::<&SyntaxValue, Error>(Error::NodeNotFound(id)),
    {
        Ok(self.get_node(id)?.get_value())
    }

    /// Whether the node `id` is complete.
    pub fn if_done(&self, id: NodeID) -> (r: Result<bool, Error>)
        ensures
            r == (if self@.has(id) {
                Ok(self@.node(id).done)
            } else {
                Err(Error::NodeNotFound(id))
            }),
    {
        Ok(self.get_node(id)?.if_done())
    }

    /// Marks the node `id` complete.
    pub fn set_done(&mut self, id: NodeID) -> (r: Result<(), Error>)
        ensures
            (final(self)@, r) == old(self)@.set_done(id),
    {
        self.get_node_mut(id)?.set_done();
        Ok(())
    }

    // node parent
    /// The parent of the node `id`; an error if it has none.
    pub fn get_parent(&self, id: NodeID) -> (r: Result<NodeID, Error>)
        ensures
            r == self@.parent_of(id),
    {
        match self.get_node(id)?.get_parent() {
            Some(parent_id) => Ok(parent_id),
            None => Err(Error::NodeHasNoParent(id)),
        }
    }

    /// Whether the node `id` is a left child.
    pub fn get_is_left(&self, id: NodeID) -> (r: Result<bool, Error>)
        ensures
            r == (if self@.has(id) {
                Ok(self@.node(id).is_left)
            } else {
                Err(Error::NodeNotFound(id))
            }),
    {
        Ok(self.get_node(id)?.get_is_left())
    }

    /// Takes the pending projection off the node `id`.
    pub fn take_project(&mut self, id: NodeID) -> (r: Result<Option<FeatureSet>, Error>)
        ensures
            old(self)@.has(id) ==> r is Ok && option_view(r->Ok_0) == old(self)@.node(id).project
                && final(self)@ == old(self)@.set_project(id, None).0,
            !old(self)@.has(id) ==> r == Err::<Option<FeatureSet>, Error>(Error::NodeNotFound(id))
                && final(self)@ == old(self)@,
    {
        Ok(self.get_node_mut(id)?.take_project())
    }

    /// Sets what the node `id` hands on to its parent when it is complete.
    pub fn set_project(&mut self, id: NodeID, project: Option<FeatureSet>) -> (r: Result<(), Error>)
        ensures
            (final(self)@, r) == old(self)@.set_project(id, option_view(project)),
    {
        self.get_node_mut(id)?.set_project(project);
        Ok(())
    }

    // node children
    /// The left child of the node `id`, if it has one.
    pub fn get_left(&self, id: NodeID) -> (r: Result<Option<NodeID>, Error>)
        ensures
            r == (if self@.has(id) {
                Ok(self@.node(id).left)
            } else {
                Err(Error::NodeNotFound(id))
            }),
    {
        Ok(self.get_node(id)?.get_left())
    }

    /// The right child of the node `id`, if it has one.
    pub fn get_right(&self, id: NodeID) -> (r: Result<Option<NodeID>, Error>)
        ensures
            r == (if self@.has(id) {
                Ok(self@.node(id).right)
            } else {
                Err(Error::NodeNotFound(id))
            }),
    {
        Ok(self.get_node(id)?.get_right())
    }

    // node other
    /// The node that the node `id` was moved to, if it was moved.
    pub fn get_moved(&self, id: NodeID) -> (r: Result<Option<NodeID>, Error>)
        ensures
            r == (if self@.has(id) {
                Ok(self@.node(id).moved)
            } else {
                Err(Error::NodeNotFound(id))
            }),
    {
        Ok(self.get_node(id)?.get_moved())
    }

    /// Records that the node `from` was moved to the node `to`.
    pub fn set_moved(&mut self, from: NodeID, to: NodeID) -> (r: Result<(), Error>)
        ensures
            (final(self)@, r) == old(self)@.set_moved(from, to),
    {
        self.get_node_mut(from)?.set_moved(to);
        Ok(())
    }

    /// Makes the node `child_id` the left child of the node `parent_id`.
    pub fn set_relation_left(&mut self, parent_id: NodeID, child_id: NodeID) -> (r: Result<(), Error>)
        ensures
            (final(self)@, r) == old(self)@.set_relation(parent_id, child_id, true),
    {
        let parent = self.get_node_mut(parent_id)?;
        parent.set_left(Some(child_id));
        let child = self.get_node_mut(child_id)?;
        child.set_parent(Some(parent_id));
        child.set_as_left();
        Ok(())
    }

    /// Makes the node `child_id` the right child of the node `parent_id`.
    pub fn set_relation_right(&mut self, parent_id: NodeID, child_id: NodeID) -> (r: Result<
        (),
        Error,
    >)
        ensures
            (final(self)@, r) == old(self)@.set_relation(parent_id, child_id, false),
    {
        let parent = self.get_node_mut(parent_id)?;
        parent.set_right(Some(child_id));
        let child = self.get_node_mut(child_id)?;
        child.set_parent(Some(parent_id));
        child.set_as_right();
        Ok(())
    }

    /// Makes the node `child_id` a child of the node `parent_id`, on the left or on
    /// the right.
    pub fn set_relation(&mut self, parent_id: NodeID, child_id: NodeID, child_is_left: bool) -> (r:
        Result<(), Error>)
        ensures
            (final(self)@, r) == old(self)@.set_relation(parent_id, child_id, child_is_left),
    {
        if child_is_left {
            self.set_relation_left(parent_id, child_id)
        } else {
            self.set_relation_right(parent_id, child_id)
        }
    }

    /// Parts the node `child_id` from its parent `parent_id`.
    pub fn delete_relation(&mut self, parent_id: NodeID, child_id: NodeID) -> (r: Result<(), Error>)
        ensures
            (final(self)@, r) == old(self)@.delete_relation(parent_id, child_id),
    {
        let parent = self.get_node(parent_id)?;
        if parent.get_left() == Some(child_id) {
            self.get_node_mut(parent_id)?.set_left(None);
        } else if parent.get_right() == Some(child_id) {
            self.get_node_mut(parent_id)?.set_right(None);
        } else {
            return Err(Error::NodeHasNoChildWithID(parent_id, child_id));
        }
        let child = self.get_node(child_id)?;
        if child.get_parent() == Some(parent_id) {
            self.get_node_mut(child_id)?.set_parent(None);
        } else {
            return Err(Error::NodeHasNoParentWithID(child_id, parent_id));
        }
        Ok(())
    }

    /// Attaches `child_id` as the left child of the upper cursor; a subtree
    /// that hangs there goes to the unattached ones. The lower cursor moves
    /// to the child.
    pub fn add_left(&mut self, child_id: NodeID) -> (r: Result<(), Error>)
        ensures
            (final(self)@, r) == old(self)@.add_left(child_id),
    {
        let parent_id = self.upper_cursor;
        if let Some(old_left_id) = self.get_left(parent_id)? {
            self.delete_relation(parent_id, old_left_id)?;
            self.unattached.push(old_left_id);
        }
        self.set_relation_left(parent_id, child_id)?;
        self.lower_cursor = child_id;
        Ok(())
    }

    /// Attaches `child_id` as the right child of the lower cursor; both
    /// cursors move to the child.
    pub fn add_right(&mut self, child_id: NodeID) -> (r: Result<(), Error>)
        ensures
            (final(self)@, r) == old(self)@.add_right(child_id),
    {
        let parent_id = self.lower_cursor;
        self.set_relation_right(parent_id, child_id)?;
        self.lower_cursor = child_id;
        self.upper_cursor = child_id;
        Ok(())
    }

    /// Attaches the node `child_id` on the left or on the right; see
    /// [`TreeView::add_child`].
    pub fn add_child(&mut self, child_id: NodeID, is_left: bool) -> (r: Result<(), Error>)
        ensures
            (final(self)@, r) == old(self)@.add_child(child_id, is_left),
    {
        if is_left {
            self.add_left(child_id)
        } else {
            self.add_right(child_id)
        }
    }
}

// interface with FeatureSet
impl TreeModel {
    /// The feature set that the node `id` holds; an error if it holds a token.
    pub fn get_features(&self, id: NodeID) -> (r: Result<&FeatureSet, Error>)
        ensures
            match self@.features_of(id) {
                Ok(fs) => r is Ok && r->Ok_0@ == fs,
                Err(e) => r == Err::<&FeatureSet, Error>(e),
            },
    {
        match self.get_node(id)?.get_value() {
            SyntaxValue::Features(features) => Ok(features),
            _ => Err(Error::NodeIsNotFeatures(id)),
        }
    }

    /// The feature set that the node `id` holds, to be changed.
    pub fn get_features_mut(&mut self, id: NodeID) -> (r: Result<&mut FeatureSet, Error>)
        ensures
            match r {
                Ok(fs) => old(self)@.features_of(id) == Ok::<Features, Error>(fs@) && final(self)@
                    == old(self)@.with_node(
                    id,
                    NodeView { value: SyntaxValueView::Features(final(fs)@), ..old(self)@.node(id) },
                ),
                Err(e) => old(self)@.features_of(id) == Err::<Features, Error>(e) && final(self)@
                    == old(self)@,
            },
    {
        match self.get_node(id)?.get_value() {
            SyntaxValue::Features(_) => {},
            _ => {
                return Err(Error::NodeIsNotFeatures(id));
            },
        }
        match self.get_node_mut(id)?.get_value_mut() {
            SyntaxValue::Features(features) => Ok(features),
            _ => Err(Error::NodeIsNotFeatures(id)),
        }
    }

    /// Merges the features of the node `from_id`, but for those that
    /// `ignore` holds identically, onto the features of its parent.
    pub fn project(&mut self, from_id: NodeID, ignore: &FeatureSet) -> (r: Result<(), Error>)
        ensures
            (final(self)@, r) == old(self)@.project(from_id, ignore@),
    {
        let parent_id = self.get_parent(from_id)?;
        let from_fs = self.get_features(from_id)?.clone();
        let onto_fs = self.get_features_mut(parent_id)?;
        match FeatureSet::project(&from_fs, onto_fs, ignore) {
            Ok(()) => Ok(()),
            Err(e) => {
                proof {
                    let s = old(self)@;
                    assert(s.with_node(parent_id, s.node(parent_id)).nodes =~= s.nodes);
                }
                Err(Error::Syntax(e))
            },
        }
    }
}

// interface with the lexicon
impl TreeModel {
    /// Marks the frontier node complete and gives it a new parent built
    /// from `value`; see [`TreeView::insert_parent`].
    pub fn insert_parent(&mut self, value: LexiconNode, with_project: Option<FeatureSet>) -> (r:
        Result<(), Error>)
        ensures
            (final(self)@, r) == old(self)@.insert_parent(value@, option_view(with_project)),
    {
        let cur_id = self.lower_cursor;
        let old_upper_cursor = self.upper_cursor;

        // detach cur from its parent
        let parent_id = self.get_parent(cur_id)?;
        let cur_is_left = self.get_is_left(cur_id)?;
        self.delete_relation(parent_id, cur_id)?;

        // mark cur as done
        self.set_done(cur_id)?;
        self.lower_cursor = parent_id;

        // append new parent as child of old parent
        let new_parent_id = self.append_child(value, cur_id, cur_is_left)?;

        // link cur and new parent
        self.set_relation(new_parent_id, cur_id, cur_is_left)?;
        let cur_project = self.take_project(cur_id)?;
        if cur_project.is_some() {
            self.set_project(new_parent_id, cur_project)?;
        }
        if let Some(ignore) = with_project {
            self.project(cur_id, &ignore)?;
        }
        // re-add an unattached subtree after the tree has been adjusted

        if old_upper_cursor != self.upper_cursor {
            if let Some(unattached_id) = self.unattached.pop() {
                self.add_left(unattached_id)?;
            }
        }
        // start from the lower cursor; where it satisfies its parent's
        // features, go upward

        self.try_project()
    }

    /// Builds a subtree for `value` and attaches it; see
    /// [`TreeView::append_child`].
    pub fn append_child(&mut self, value: LexiconNode, trigger: NodeID, child_is_left: bool) -> (r:
        Result<NodeID, Error>)
        ensures
            (final(self)@, r) == old(self)@.append_child(value@, trigger, child_is_left),
        decreases value,
    {
        match value {
            LexiconNode::Value { value } => {
                let child_id = self.new_node(value);
                self.add_child(child_id, child_is_left)?;
                Ok(child_id)
            },
            LexiconNode::Lambda { from, to, project } => {
                let child_id = self.new_node(SyntaxValue::Features(to));
                self.add_child(child_id, child_is_left)?;
                let child_child_id = self.append_child(*from, trigger, !child_is_left)?;
                if project {
                    let ignore_fs = self.get_features(child_child_id)?.clone();
                    self.set_project(child_child_id, Some(ignore_fs))?;
                }
                Ok(child_id)
            },
            LexiconNode::Moved { from } => {
                let child_id = self.new_node(SyntaxValue::Features(from));
                self.add_child(child_id, child_is_left)?;
                self.set_moved(child_id, trigger)?;
                Ok(child_id)
            },
        }
    }

    /// The nearest node, from `from` upwards, that is no left child.
    fn climb(&self, from: NodeID) -> (r: Result<NodeID, Error>)
        ensures
            r == self@.climb(from, self@.nodes.len()),
    {
        let mut upper = from;
        let mut fuel = self.size();
        loop
            invariant
                fuel <= self@.nodes.len(),
                self@.climb(from, self@.nodes.len()) == self@.climb(upper, fuel as nat),
            decreases fuel,
        {
            if !self.get_is_left(upper)? {
                return Ok(upper);
            }
            if fuel == 0 {
                return Err(Error::NotATree(upper));
            }
            upper = self.get_parent(upper)?;
            fuel = fuel - 1;
        }
    }

    /// Saturation of the node `cur` under its parent `parent`.
    fn saturate(&mut self, cur_id: NodeID, parent_id: NodeID) -> (r: Result<(), Error>)
        requires
            old(self)@.has(cur_id),
        ensures
            (final(self)@, r) == old(self)@.saturate(cur_id, parent_id),
    {
        if !self.if_done(cur_id)? && self.get_is_left(cur_id)? {
            let cur_fs = self.get_features(cur_id)?;
            let parent_fs = self.get_features(parent_id)?;
            if parent_fs.is_subset(cur_fs) {
                let ignore = parent_fs.clone();
                self.project(cur_id, &ignore)?;
                self.set_done(cur_id)?;
                self.set_done(parent_id)?;
            }
        }
        Ok(())
    }

    /// The upward pass with at most `fuel` moves.
    fn try_project_within(&mut self, fuel: usize) -> (r: Result<(), Error>)
        ensures
            (final(self)@, r) == old(self)@.try_project(fuel as nat),
        decreases fuel,
    {
        let cur_id = self.lower_cursor;
        let parent_id = match self.get_parent(cur_id) {
            Ok(id) => id,
            Err(_) => {
                return Ok(());
            },
        };
        self.saturate(cur_id, parent_id)?;
        if !self.if_done(cur_id)? {
            return Ok(());
        }
        if let Some(ignore_fs) = self.take_project(cur_id)? {
            self.project(cur_id, &ignore_fs)?;
        }
        self.lower_cursor = parent_id;
        self.upper_cursor = parent_id;
        self.upper_cursor = self.climb(parent_id)?;
        if fuel == 0 {
            return Err(Error::NotATree(parent_id));
        }
        self.try_project_within(fuel - 1)
    }

    /// The upward pass; see [`TreeView::try_project`].
    pub fn try_project(&mut self) -> (r: Result<(), Error>)
        ensures
            (final(self)@, r) == old(self)@.try_project(old(self)@.nodes.len()),
    {
        let fuel = self.size();
        self.try_project_within(fuel)
    }

    /// Hangs the child `child` of the spliced node `id` under `parent`.
    fn rehang(
        &mut self,
        work: &mut Vec<(NodeID, Option<NodeID>)>,
        id: NodeID,
        child: Option<NodeID>,
        parent: NodeID,
        is_left: bool,
    ) -> (r: Result<(), Error>)
        ensures
            (final(self)@, r, final(work)@) == old(self)@.rehang(old(work)@, id, child, parent, is_left),
    {
        if let Some(c) = child {
            self.delete_relation(id, c)?;
            self.set_relation(parent, c, is_left)?;
            work.push((c, Some(parent)));
        }
        Ok(())
    }

    /// Whether the node `id`, visited under `parent`, is vacuous.
    fn is_vacuous(&self, id: NodeID, parent: NodeID) -> (r: bool)
        requires
            self@.has(id),
            self@.has(parent),
        ensures
            r == self@.vacuous(id, parent),
    {
        let node = &self.nodes[id];
        let above = &self.nodes[parent];
        match (node.get_value(), above.get_value()) {
            (SyntaxValue::Features(fs), SyntaxValue::Features(parent_fs)) => fs.is_subset(parent_fs)
                && above.number_of_children() == 1,
            _ => false,
        }
    }

    /// Splices out the vacuous nodes; see [`TreeView::prune_walk`].
    pub fn prune(&mut self) -> (r: Result<(), Error>)
        ensures
            (final(self)@, r) == old(self)@.prune(),
    {
        let mut work: Vec<(NodeID, Option<NodeID>)> = Vec::new();
        if self.size() > 0 {
            work.push((0, None));
        } else {
            return Ok(());
        }
        assert(work@ =~= seq![(0usize, None::<NodeID>)]);
        let mut fuel = self.size();
        let ghost goal = old(self)@.prune();
        loop
            invariant
                goal == old(self)@.prune(),
                goal == self@.prune_walk(work@, fuel as nat),
            decreases fuel,
        {
            let (id, parent) = match work.pop() {
                Some(item) => item,
                None => {
                    return Ok(());
                },
            };
            let ghost before = work@.push((id, parent));
            assert(before.drop_last() =~= work@);
            if fuel == 0 {
                return Err(Error::NotATree(id));
            }
            let node = self.get_node(id)?;
            let left_id = node.get_left();
            let right_id = node.get_right();
            let delete = match parent {
                Some(p) => {
                    self.get_node(p)?;
                    self.is_vacuous(id, p)
                },
                None => false,
            };
            if delete {
                let p = match parent {
                    Some(p) => p,
                    None => 0,
                };
                self.delete_relation(p, id)?;
                self.rehang(&mut work, id, left_id, p, true)?;
                self.rehang(&mut work, id, right_id, p, false)?;
            } else {
                if let Some(left_id) = left_id {
                    work.push((left_id, Some(id)));
                }
                if let Some(right_id) = right_id {
                    work.push((right_id, Some(id)));
                }
            }
            fuel = fuel - 1;
        }
    }
}

/// The result of a step of the derivation tree, as a step of a cognitive
/// model.
pub open spec fn lifted(step: (TreeView, Result<(), Error>)) -> (TreeView, Result<(), crate::cognitive::Error>) {
    (
        step.0,
        match step.1 {
            Ok(_) => Ok(()),
            Err(e) => Err(crate::cognitive::Error::TreeModel(e)),
        },
    )
}

impl CognitiveModel for TreeModel {
    /// A single node that holds the target; both cursors point at it.
    open spec fn init_spec(target: Features) -> TreeView {
        TreeView::empty().new_node(SyntaxValueView::Features(target)).0
    }

    /// The frontier node is complete.
    open spec fn understood_spec(state: TreeView) -> bool {
        state.has(state.lower_cursor) && state.node(state.lower_cursor).done
    }

    open spec fn demand_spec(state: TreeView) -> bool {
        true
    }

    /// A leaf for the token is attached as the left child of the upper
    /// cursor.
    open spec fn receive_spec(state: TreeView, token: Key) -> (TreeView, Result<(), crate::cognitive::Error>) {
        let (s, id) = state.new_node(SyntaxValueView::Item(token));
        lifted(s.add_left(id))
    }

    /// The value at the frontier node.
    open spec fn wonder_spec(state: TreeView) -> Option<SyntaxValueView> {
        if state.has(state.lower_cursor) {
            Some(state.node(state.lower_cursor).value)
        } else {
            None
        }
    }

    open spec fn decide_spec(state: TreeView, entry: LexiconEntryView) -> (
        TreeView,
        Result<(), crate::cognitive::Error>,
    ) {
        match entry {
            LexiconEntryView::Lexical(value) => lifted(state.insert_parent(value, None)),
            LexiconEntryView::Functional { to, project } => lifted(state.insert_parent(to, project)),
        }
    }

    fn init(target: FeatureSet) -> (r: Self) {
        let mut model = Self::new();
        model.new_node(SyntaxValue::Features(target));
        model
    }

    fn understood(&self) -> (r: bool) {
        match self.if_done(self.lower_cursor) {
            Ok(done) => done,
            Err(_) => false,
        }
    }

    fn demand(&self) -> (r: bool) {
        true
    }

    fn receive(&mut self, token: Key) -> (r: Result<(), crate::cognitive::Error>) {
        let new_node = self.new_node(SyntaxValue::from_item(token));
        match self.add_left(new_node) {
            Ok(()) => Ok(()),
            Err(e) => Err(crate::cognitive::Error::TreeModel(e)),
        }
    }

    fn wonder(&self) -> (r: Option<&SyntaxValue>) {
        match self.get_value(self.lower_cursor) {
            Ok(value) => Some(value),
            Err(_) => None,
        }
    }

    fn decide(&mut self, entry: LexiconEntry) -> (r: Result<(), crate::cognitive::Error>) {
        let r = match entry {
            LexiconEntry::Lexical(value) => self.insert_parent(value, None),
            LexiconEntry::Functional { to, project } => self.insert_parent(to, project),
        };
        match r {
            Ok(()) => Ok(()),
            Err(e) => Err(crate::cognitive::Error::TreeModel(e)),
        }
    }

    fn fork(&self) -> (r: Self) {
        self.clone()
    }
}

impl Clone for TreeModel {
    fn clone(&self) -> (r: Self)
        ensures
            r@ == self@,
    {
        let mut nodes: Vec<Node> = Vec::new();
        let mut i: usize = 0;
        while i < self.nodes.len()
            invariant
                i <= self.nodes.len(),
                nodes@.len() == i,
                forall|j: int| 0 <= j < i ==> (#[trigger] nodes@[j])@ == self.nodes@[j]@,
            decreases self.nodes.len() - i,
        {
            nodes.push(self.nodes[i].clone());
            i = i + 1;
        }
        let r = TreeModel {
            nodes,
            root: self.root,
            upper_cursor: self.upper_cursor,
            lower_cursor: self.lower_cursor,
            unattached: self.unattached.clone(),
        };
        assert(r@.nodes =~= self@.nodes);
        assert(r@.unattached =~= self@.unattached);
        r
    }
}

} // verus!

