use super::error::{Error, NodeID};
use super::model::{TreeModel, TreeView};
use crate::interner::Interner;
use crate::text::{blank_text, blanks, decimal, decimal_text};
use vstd::prelude::*;
use vstd::string::StringExecFns;

verus! {

/// The indentation of a node at the depth `depth`: four blanks for each
/// level.
pub open spec fn indentation(depth: nat) -> Seq<char> {
    blanks(depth) + blanks(depth) + blanks(depth) + blanks(depth)
}

/// A mark for a node on which a projection is pending.
pub open spec fn star(pending: bool) -> Seq<char> {
    if pending {
        "\u{2605} "@
    } else {
        Seq::empty()
    }
}

/// A mark for a complete node.
pub open spec fn tick(done: bool) -> Seq<char> {
    if done {
        "\u{2714}  "@
    } else {
        Seq::empty()
    }
}

/// An arrow to where a constituent was moved from.
pub open spec fn arrow(moved: Option<NodeID>) -> Seq<char> {
    match moved {
        Some(id) => " --> ["@ + decimal(id as nat) + "]"@,
        None => Seq::empty(),
    }
}

/// The text `mark` if `here`, else nothing.
pub open spec fn mark_if(here: bool, mark: Seq<char>) -> Seq<char> {
    if here {
        mark
    } else {
        Seq::empty()
    }
}

/// The number of a node in square brackets, after a tick, if `full` and
/// the node is complete, and a star, if a projection is pending on it;
/// then an arrow to where the node was moved from.
pub open spec fn label(node: super::node::NodeView, full: bool) -> Seq<char> {
    "["@ + tick(full && node.done) + star(node.project is Some) + decimal(node.id as nat) + "]"@
        + arrow(node.moved)
}

/// The number of children of a node, in round brackets.
pub open spec fn count(node: super::node::NodeView) -> Seq<char> {
    "("@ + decimal(node.number_of_children()) + " children)"@
}

/// The list `work` with `id` on top at the depth `depth`, if there is an
/// `id`.
pub open spec fn with_item(work: Seq<(NodeID, usize)>, id: Option<NodeID>, depth: usize) -> Seq<
    (NodeID, usize),
> {
    match id {
        Some(id) => work.push((id, depth)),
        None => work,
    }
}

impl TreeView {
    /// The line for the node `id` at the depth `depth`: the indentation;
    /// in square brackets a star, if a projection is pending, and the
    /// number of the node; an arrow to where the node was moved from; the
    /// value.
    pub open spec fn display_line<I: Interner>(self, names: &I, id: NodeID, depth: nat) -> Result<
        Seq<char>,
        Error,
    > {
        if !self.has(id) {
            Err(Error::StdFmt)
        } else {
            match self.node(id).value.text(names) {
                None => Err(Error::StdFmt),
                Some(value) => Ok(
                    indentation(depth) + label(self.node(id), false) + " "@ + value + "\n"@,
                ),
            }
        }
    }

    /// The lines for the nodes of `work` and what hangs below them: the
    /// node on top, then its left child with what is below it, then its
    /// right child. The walk gives up after `fuel` nodes.
    pub open spec fn display_walk<I: Interner>(self, names: &I, work: Seq<(NodeID, usize)>, fuel: nat) -> Result<
        Seq<char>,
        Error,
    >
        decreases fuel,
    {
        if work.len() == 0 {
            Ok(Seq::empty())
        } else if fuel == 0 {
            Err(Error::NotATree(work.last().0))
        } else {
            let (id, depth) = work.last();
            match self.display_line(names, id, depth as nat) {
                Err(e) => Err(e),
                Ok(line) => match self.display_walk(
                    names,
                    with_item(
                        with_item(work.drop_last(), self.node(id).right, (depth + 1) as usize),
                        self.node(id).left,
                        (depth + 1) as usize,
                    ),
                    (fuel - 1) as nat,
                ) {
                    Err(e) => Err(e),
                    Ok(rest) => Ok(line + rest),
                },
            }
        }
    }

    /// The tree as it is written: from the node 0 down, a node on each
    /// line, indented by its depth. The empty tree is the empty text.
    pub open spec fn display<I: Interner>(self, names: &I) -> Result<Seq<char>, Error> {
        if self.nodes.len() == 0 {
            Ok(Seq::empty())
        } else {
            self.display_walk(names, seq![(0usize, 0usize)], self.nodes.len())
        }
    }

    /// The line for the node `id` at the depth `depth`, in full: as
    /// [`Self::display_line`], with a tick in the brackets if the node is
    /// complete, and after the value the cursors that point at the node and
    /// the number of its children.
    pub open spec fn debug_line<I: Interner>(self, names: &I, id: NodeID, depth: nat) -> Result<
        Seq<char>,
        Error,
    > {
        if !self.has(id) {
            Err(Error::StdFmt)
        } else {
            match self.node(id).value.text(names) {
                None => Err(Error::StdFmt),
                Some(value) => Ok(
                    indentation(depth) + label(self.node(id), true) + " "@ + value + mark_if(
                        id == self.upper_cursor,
                        " <--UPPER_CURSOR|"@,
                    ) + mark_if(id == self.lower_cursor, " <--LOWER_CURSOR|"@) + count(self.node(id))
                        + "\n"@,
                ),
            }
        }
    }

    /// The lines, in full, for the child `child` at the depth `depth`, if
    /// there is one.
    pub open spec fn debug_child<I: Interner>(self, names: &I, child: Option<NodeID>, depth: nat, fuel: nat) -> Result<
        Seq<char>,
        Error,
    >
        decreases fuel, 0nat,
    {
        match child {
            None => Ok(Seq::empty()),
            Some(id) => if fuel == 0 {
                Err(Error::NotATree(id))
            } else {
                self.debug_node(names, id, depth, (fuel - 1) as nat)
            },
        }
    }

    /// The lines, in full, for the node `id` and what hangs below it:
    /// the node, its left child with what is below it, then its right
    /// child. No more than `fuel` levels below the node are written.
    pub open spec fn debug_node<I: Interner>(self, names: &I, id: NodeID, depth: nat, fuel: nat) -> Result<
        Seq<char>,
        Error,
    >
        decreases fuel, 1nat,
    {
        match self.debug_line(names, id, depth) {
            Err(e) => Err(e),
            Ok(line) => match self.debug_child(names, self.node(id).left, depth + 1, fuel) {
                Err(e) => Err(e),
                Ok(left) => match self.debug_child(names, self.node(id).right, depth + 1, fuel) {
                    Err(e) => Err(e),
                    Ok(right) => Ok(line + left + right),
                },
            },
        }
    }

    /// The lines, in full, for the subtrees with the roots `roots`.
    pub open spec fn debug_roots<I: Interner>(self, names: &I, roots: Seq<NodeID>) -> Result<
        Seq<char>,
        Error,
    >
        decreases roots.len(),
    {
        if roots.len() == 0 {
            Ok(Seq::empty())
        } else {
            match self.debug_roots(names, roots.drop_last()) {
                Err(e) => Err(e),
                Ok(front) => match self.debug_node(names, roots.last(), 0, self.nodes.len()) {
                    Err(e) => Err(e),
                    Ok(last) => Ok(front + last),
                },
            }
        }
    }

    /// The tree as it is written in full: the tree below the root, and
    /// under a heading the detached subtrees.
    pub open spec fn debug<I: Interner>(self, names: &I) -> Result<Seq<char>, Error> {
        let tree = if self.nodes.len() > 0 {
            self.debug_node(names, self.root, 0, self.nodes.len())
        } else {
            Ok(Seq::empty())
        };
        match tree {
            Err(e) => Err(e),
            Ok(tree) => if self.unattached.len() == 0 {
                Ok(tree)
            } else {
                match self.debug_roots(names, self.unattached) {
                    Err(e) => Err(e),
                    Ok(rest) => Ok(tree + "Unattached subtrees:\n"@ + rest),
                }
            },
        }
    }
}

/// Whether `r` is the text `expected`, or its error.
pub open spec fn written(r: Result<String, Error>, expected: Result<Seq<char>, Error>) -> bool {
    match expected {
        Ok(text) => r is Ok && r->Ok_0@ == text,
        Err(e) => r == Err::<String, Error>(e),
    }
}

/// Appends to `out` the indentation of the depth `depth`.
fn write_indentation(out: &mut String, depth: usize)
    ensures
        final(out)@ == old(out)@ + indentation(depth as nat),
{
    let blanks = blank_text(depth);
    out.append(blanks.as_str());
    out.append(blanks.as_str());
    out.append(blanks.as_str());
    out.append(blanks.as_str());
    assert(out@ =~= old(out)@ + indentation(depth as nat));
}

/// Appends to `out` the arrow to where a constituent was moved from.
fn write_arrow(out: &mut String, moved: Option<NodeID>)
    ensures
        final(out)@ == old(out)@ + arrow(moved),
{
    match moved {
        Some(id) => {
            out.append(" --> [");
            out.append(decimal_text(id).as_str());
            out.append("]");
            assert(out@ =~= old(out)@ + arrow(moved));
        },
        None => {
            assert(out@ =~= old(out)@ + arrow(moved));
        },
    }
}

/// Appends to `out` the label of the node `node`.
fn write_label(out: &mut String, node: &super::node::Node, full: bool)
    ensures
        final(out)@ == old(out)@ + label(node@, full),
{
    out.append("[");
    write_if(out, full && node.if_done(), "\u{2714}  ");
    assert(mark_if(full && node@.done, "\u{2714}  "@) == tick(full && node@.done));
    write_if(out, node.get_project().is_some(), "\u{2605} ");
    assert(mark_if(node@.project is Some, "\u{2605} "@) == star(node@.project is Some));
    out.append(decimal_text(node.get_id()).as_str());
    out.append("]");
    write_arrow(out, node.get_moved());
    assert(out@ =~= old(out)@ + label(node@, full));
}

/// Appends to `out` the number of children of the node `node`.
fn write_count(out: &mut String, node: &super::node::Node)
    ensures
        final(out)@ == old(out)@ + count(node@),
{
    out.append("(");
    out.append(decimal_text(node.number_of_children()).as_str());
    out.append(" children)");
    assert(out@ =~= old(out)@ + count(node@));
}

/// Appends `mark` to `out` if `here`.
fn write_if(out: &mut String, here: bool, mark: &str)
    ensures
        final(out)@ == old(out)@ + mark_if(here, mark@),
{
    if here {
        out.append(mark);
    }
    assert(out@ =~= old(out)@ + mark_if(here, mark@));
}

impl TreeModel {
    /// Appends to `out` the line for the node `id` at the depth `depth`.
    fn write_display_line<I: Interner>(&self, names: &I, out: &mut String, id: NodeID, depth: usize) -> (r:
        Result<(), Error>)
        ensures
            match self@.display_line(names, id, depth as nat) {
                Ok(line) => r is Ok && final(out)@ == old(out)@ + line,
                Err(e) => r == Err::<(), Error>(e),
            },
    {
        let node = match self.get_node(id) {
            Ok(node) => node,
            Err(_) => {
                return Err(Error::StdFmt);
            },
        };
        let value = match node.get_value().to_string(names) {
            Some(value) => value,
            None => {
                return Err(Error::StdFmt);
            },
        };
        write_indentation(out, depth);
        write_label(out, node, false);
        out.append(" ");
        out.append(value.as_str());
        out.append("\n");
        assert(out@ =~= old(out)@ + self@.display_line(names, id, depth as nat)->Ok_0);
        Ok(())
    }

    /// The tree as it is written, a node on each line; see
    /// [`TreeView::display`].
    pub fn to_string<I: Interner>(&self, names: &I) -> (r: Result<String, Error>)
        ensures
            written(r, self@.display(names)),
    {
        let mut out = String::new();
        let mut nodes: Vec<(NodeID, usize)> = Vec::new();
        if self.size() > 0 {
            nodes.push((0, 0));
        } else {
            return Ok(out);
        }
        assert(nodes@ =~= seq![(0usize, 0usize)]);
        let mut fuel = self.size();
        let ghost goal = self@.display(names);
        assert(out@ + Seq::<char>::empty() =~= out@);
        while nodes.len() > 0
            invariant
                fuel <= self@.nodes.len() <= usize::MAX,
                forall|j: int| 0 <= j < nodes@.len() ==> (#[trigger] nodes@[j]).1 <= self@.nodes.len() - fuel,
                goal == self@.display(names),
                goal == (match self@.display_walk(names, nodes@, fuel as nat) {
                    Ok(rest) => Ok::<Seq<char>, Error>(out@ + rest),
                    Err(e) => Err(e),
                }),
            decreases fuel,
        {
            let ghost work = nodes@;
            let ghost before = out@;
            assert(work[work.len() - 1].1 <= self@.nodes.len() - fuel);
            let top = nodes.pop();
            assert(nodes@ =~= work.drop_last());
            if let Some((id, depth)) = top {
                assert(work.last() == (id, depth));
                if fuel == 0 {
                    return Err(Error::NotATree(id));
                }
                self.write_display_line(names, &mut out, id, depth)?;
                let node = &self.nodes_ref()[id];
                // push right first because nodes is a stack
                if let Some(right_id) = node.get_right() {
                    nodes.push((right_id, depth + 1));
                }
                if let Some(left_id) = node.get_left() {
                    nodes.push((left_id, depth + 1));
                }
                proof {
                    let line = self@.display_line(names, id, depth as nat)->Ok_0;
                    assert(nodes@ =~= with_item(
                        with_item(work.drop_last(), self@.node(id).right, (depth + 1) as usize),
                        self@.node(id).left,
                        (depth + 1) as usize,
                    ));
                    match self@.display_walk(names, nodes@, (fuel - 1) as nat) {
                        Ok(rest) => {
                            assert((before + line) + rest =~= before + (line + rest));
                        },
                        Err(_) => {},
                    }
                }
                fuel = fuel - 1;
            }
        }
        assert(out@ + Seq::<char>::empty() =~= out@);
        Ok(out)
    }

    /// Appends to `out` the line, in full, for the node `id` at the depth
    /// `depth`.
    fn write_debug_line<I: Interner>(&self, names: &I, out: &mut String, id: NodeID, depth: usize) -> (r:
        Result<(), Error>)
        ensures
            match self@.debug_line(names, id, depth as nat) {
                Ok(line) => r is Ok && final(out)@ == old(out)@ + line,
                Err(e) => r == Err::<(), Error>(e),
            },
    {
        let node = match self.get_node(id) {
            Ok(node) => node,
            Err(_) => {
                return Err(Error::StdFmt);
            },
        };
        let value = match node.get_value().to_string(names) {
            Some(value) => value,
            None => {
                return Err(Error::StdFmt);
            },
        };
        write_indentation(out, depth);
        write_label(out, node, true);
        out.append(" ");
        out.append(value.as_str());
        write_if(out, id == self.get_upper_cursor(), " <--UPPER_CURSOR|");
        write_if(out, id == self.get_lower_cursor(), " <--LOWER_CURSOR|");
        write_count(out, node);
        out.append("\n");
        assert(out@ =~= old(out)@ + self@.debug_line(names, id, depth as nat)->Ok_0);
        Ok(())
    }

    /// Appends to `out` the lines, in full, for the node `id` and what
    /// hangs below it, down to `fuel` levels.
    pub fn fmt_node_debug<I: Interner>(&self, names: &I, out: &mut String, id: NodeID, depth: usize, fuel: usize) -> (r:
        Result<(), Error>)
        requires
            depth + fuel <= usize::MAX,
        ensures
            match self@.debug_node(names, id, depth as nat, fuel as nat) {
                Ok(lines) => r is Ok && final(out)@ == old(out)@ + lines,
                Err(e) => r == Err::<(), Error>(e),
            },
        decreases fuel,
    {
        self.write_debug_line(names, out, id, depth)?;
        let ghost line = self@.debug_line(names, id, depth as nat)->Ok_0;
        let node = &self.nodes_ref()[id];
        let left = node.get_left();
        let right = node.get_right();
        let ghost first = out@;
        if let Some(left_id) = left {
            if fuel == 0 {
                return Err(Error::NotATree(left_id));
            }
            self.fmt_node_debug(names, out, left_id, depth + 1, fuel - 1)?;
        }
        let ghost second = out@;
        if let Some(right_id) = right {
            if fuel == 0 {
                return Err(Error::NotATree(right_id));
            }
            self.fmt_node_debug(names, out, right_id, depth + 1, fuel - 1)?;
        }
        proof {
            let l = self@.debug_child(names, left, depth as nat + 1, fuel as nat)->Ok_0;
            let r = self@.debug_child(names, right, depth as nat + 1, fuel as nat)->Ok_0;
            assert(second =~= first + l);
            assert(out@ =~= second + r);
            assert(out@ =~= old(out)@ + (line + l + r));
        }
        Ok(())
    }

    /// The tree as it is written in full; see [`TreeView::debug`].
    pub fn to_debug_string<I: Interner>(&self, names: &I) -> (r: Result<String, Error>)
        ensures
            written(r, self@.debug(names)),
    {
        let mut out = String::new();
        if self.size() > 0 {
            self.fmt_node_debug(names, &mut out, self.get_root(), 0, self.size())?;
            assert(out@ =~= self@.debug_node(names, self@.root, 0, self@.nodes.len())->Ok_0);
        }
        let unattached = self.get_unattached();
        if unattached.len() > 0 {
            let ghost tree = out@;
            assert(self@.nodes.len() == 0 ==> tree =~= Seq::<char>::empty());
            out.append("Unattached subtrees:\n");
            let ghost head = out@;
            let ghost mut rest: Seq<char> = Seq::empty();
            assert(out@ =~= head + rest);
            let mut i: usize = 0;
            assert(unattached@.take(0) =~= Seq::<NodeID>::empty());
            while i < unattached.len()
                invariant
                    i <= unattached.len(),
                    unattached@ == self@.unattached,
                    unattached@.len() > 0,
                    self@.nodes.len() > 0 ==> self@.debug_node(
                        names,
                        self@.root,
                        0,
                        self@.nodes.len(),
                    ) == Ok::<Seq<char>, Error>(tree),
                    self@.nodes.len() == 0 ==> tree == Seq::<char>::empty(),
                    out@ == head + rest,
                    self@.debug_roots(names, unattached@.take(i as int)) == Ok::<Seq<char>, Error>(rest),
                decreases unattached.len() - i,
            {
                proof {
                    assert(unattached@.take(i + 1).drop_last() =~= unattached@.take(i as int));
                    assert(unattached@.take(i + 1).last() == unattached@[i as int]);
                }
                let ghost before = out@;
                match self.fmt_node_debug(names, &mut out, unattached[i], 0, self.size()) {
                    Ok(()) => {},
                    Err(e) => {
                        proof {
                            assert(self@.debug_roots(names, unattached@.take(i + 1)) == Err::<
                                Seq<char>,
                                Error,
                            >(e));
                            lemma_debug_roots_fail(self@, names, unattached@, i + 1);
                        }
                        return Err(e);
                    },
                }
                proof {
                    let lines = self@.debug_node(names, unattached@[i as int], 0, self@.nodes.len())->Ok_0;
                    assert(out@ =~= head + (rest + lines));
                    rest = rest + lines;
                }
                i = i + 1;
            }
            assert(unattached@.take(i as int) =~= unattached@);
            assert(out@ =~= tree + "Unattached subtrees:\n"@ + rest);
        }
        Ok(out)
    }
}

/// If the first `n` subtrees cannot be written, the subtrees cannot, for
/// the same reason.
pub proof fn lemma_debug_roots_fail<I: Interner>(view: TreeView, names: &I, roots: Seq<NodeID>, n: int)
    requires
        0 <= n <= roots.len(),
        view.debug_roots(names, roots.take(n)) is Err,
    ensures
        view.debug_roots(names, roots) == view.debug_roots(names, roots.take(n)),
    decreases roots.len() - n,
{
    if n < roots.len() {
        assert(roots.take(n + 1).drop_last() =~= roots.take(n));
        lemma_debug_roots_fail(view, names, roots, n + 1);
    } else {
        assert(roots.take(n) =~= roots);
    }
}

} // verus!
