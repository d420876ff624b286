use super::error::{Error, NodeID};
use super::model::{TreeModel, TreeView};
use crate::interner::{name_view, Interner};
use crate::syntax::{features_text, SyntaxValue, SyntaxValueView};
use crate::text::{decimal, decimal_text};
use vstd::prelude::*;
use vstd::string::StringExecFns;

verus! {

impl SyntaxValueView {
    /// The attributes of the slot as a node of a graph: a token is
    /// labelled with its name, and green; a feature set with its pairs, one
    /// on each line, and blue. Nothing if a key has no name.
    pub open spec fn dot_attr<I: Interner>(self, names: &I) -> Option<Seq<char>> {
        match self {
            SyntaxValueView::Item(k) => match names.name_of(k) {
                Some(name) => Some("label=\""@ + name + "\", color=lightgreen"@),
                None => None,
            },
            SyntaxValueView::Features(fs) => match features_text(names, fs, "\n"@) {
                Some(text) => Some("label=\""@ + text + "\", color=lightblue"@),
                None => None,
            },
        }
    }
}

impl SyntaxValue {
    /// The attributes of the slot as a node of a graph.
    pub fn to_dot_attr<I: Interner>(&self, names: &I) -> (r: Option<String>)
        ensures
            name_view(r) == self@.dot_attr(names),
    {
        match self {
            SyntaxValue::Item(item) => match names.resolve(*item) {
                Some(name) => {
                    let mut r = String::from_str("label=\"");
                    r.append(name.as_str());
                    r.append("\", color=lightgreen");
                    Some(r)
                },
                None => None,
            },
            SyntaxValue::Features(features) => match features.to_string_with(names, "\n") {
                Some(text) => {
                    let mut r = String::from_str("label=\"");
                    r.append(text.as_str());
                    r.append("\", color=lightblue");
                    Some(r)
                },
                None => None,
            },
        }
    }
}

/// An edge of the graph from `from` to `to`, with the attributes `attr`.
pub open spec fn dot_edge(from: NodeID, to: NodeID, attr: Seq<char>) -> Seq<char> {
    "    \""@ + decimal(from as nat) + "\" -> \""@ + decimal(to as nat) + "\" ["@ + attr + "];\n"@
}

/// The edge to a child or to a moved constituent's origin, if there is
/// one.
pub open spec fn dot_link(from: NodeID, to: Option<NodeID>, attr: Seq<char>) -> Seq<char> {
    match to {
        Some(to) => dot_edge(from, to, attr),
        None => Seq::empty(),
    }
}

/// The list `work` with `id` on top, if there is an `id`.
pub open spec fn with_child(work: Seq<NodeID>, id: Option<NodeID>) -> Seq<NodeID> {
    match id {
        Some(id) => work.push(id),
        None => work,
    }
}

impl TreeView {
    /// The lines of the graph for the node `id`: the node with its
    /// attributes, a plain edge to each child, and a dashed blue edge to
    /// where it was moved from.
    pub open spec fn dot_node<I: Interner>(self, names: &I, id: NodeID) -> Result<Seq<char>, Error> {
        if !self.has(id) {
            Err(Error::NodeNotFound(id))
        } else {
            match self.node(id).value.dot_attr(names) {
                None => Err(Error::StdFmt),
                Some(attr) => Ok(
                    "    \""@ + decimal(id as nat) + "\" ["@ + attr + "];\n"@ + dot_link(
                        id,
                        self.node(id).left,
                        "arrowhead=none"@,
                    ) + dot_link(id, self.node(id).right, "arrowhead=none"@) + dot_link(
                        id,
                        self.node(id).moved,
                        "style=dashed, constraint=false, color=blue"@,
                    ),
                ),
            }
        }
    }

    /// The lines of the graph for the nodes of `work` and what hangs below
    /// them: the node on top is written, then its right child with what is
    /// below it, then its left child. The walk gives up after `fuel` nodes.
    pub open spec fn dot_walk<I: Interner>(self, names: &I, work: Seq<NodeID>, fuel: nat) -> Result<
        Seq<char>,
        Error,
    >
        decreases fuel,
    {
        if work.len() == 0 {
            Ok(Seq::empty())
        } else if fuel == 0 {
            Err(Error::NotATree(work.last()))
        } else {
            let id = work.last();
            match self.dot_node(names, id) {
                Err(e) => Err(e),
                Ok(lines) => match self.dot_walk(
                    names,
                    with_child(with_child(work.drop_last(), self.node(id).left), self.node(id).right),
                    (fuel - 1) as nat,
                ) {
                    Err(e) => Err(e),
                    Ok(rest) => Ok(lines + rest),
                },
            }
        }
    }

    /// The tree as a graph in the DOT language; the empty tree is the
    /// empty text.
    pub open spec fn dot_graph<I: Interner>(self, names: &I) -> Result<Seq<char>, Error> {
        if self.nodes.len() == 0 {
            Ok(Seq::empty())
        } else {
            match self.dot_walk(names, seq![self.root], self.nodes.len()) {
                Err(e) => Err(e),
                Ok(body) => Ok(
                    "digraph {{\n"@ + "    rankdir=TB;\n"@ + "    node [shape=box, style=filled];\n"@
                        + body + "}}"@,
                ),
            }
        }
    }
}

/// Appends to `graph` an edge from `from` to `to`, if there is a `to`.
fn write_link(graph: &mut String, from: NodeID, to: Option<NodeID>, attr: &str)
    ensures
        final(graph)@ == old(graph)@ + dot_link(from, to, attr@),
{
    match to {
        Some(to) => {
            graph.append("    \"");
            graph.append(decimal_text(from).as_str());
            graph.append("\" -> \"");
            graph.append(decimal_text(to).as_str());
            graph.append("\" [");
            graph.append(attr);
            graph.append("];\n");
            assert(graph@ =~= old(graph)@ + dot_edge(from, to, attr@));
        },
        None => {
            assert(graph@ =~= old(graph)@ + Seq::<char>::empty());
        },
    }
}

impl TreeModel {
    /// Appends to `graph` the lines for the node `id`, and puts its
    /// children on `nodes`.
    fn write_node<I: Interner>(&self, names: &I, graph: &mut String, nodes: &mut Vec<NodeID>, id: NodeID) -> (r:
        Result<(), Error>)
        ensures
            match self@.dot_node(names, id) {
                Ok(lines) => r is Ok && final(graph)@ == old(graph)@ + lines && final(nodes)@
                    == with_child(
                    with_child(old(nodes)@, self@.node(id).left),
                    self@.node(id).right,
                ),
                Err(e) => r == Err::<(), Error>(e),
            },
    {
        let value = match self.get_value(id)?.to_dot_attr(names) {
            Some(value) => value,
            None => {
                return Err(Error::StdFmt);
            },
        };
        graph.append("    \"");
        graph.append(decimal_text(id).as_str());
        graph.append("\" [");
        graph.append(value.as_str());
        graph.append("];\n");
        let ghost first = graph@;
        assert(first =~= old(graph)@ + ("    \""@ + decimal(id as nat) + "\" ["@ + value@ + "];\n"@));
        let left = self.get_left(id)?;
        write_link(graph, id, left, "arrowhead=none");
        if let Some(left_id) = left {
            nodes.push(left_id);
        }
        let right = self.get_right(id)?;
        write_link(graph, id, right, "arrowhead=none");
        if let Some(right_id) = right {
            nodes.push(right_id);
        }
        let moved = self.get_moved(id)?;
        write_link(graph, id, moved, "style=dashed, constraint=false, color=blue");
        assert(graph@ =~= old(graph)@ + self@.dot_node(names, id)->Ok_0);
        Ok(())
    }

    /// The tree as a graph in the DOT language.
    pub fn to_dot_graph<I: Interner>(&self, names: &I) -> (r: Result<String, Error>)
        ensures
            match self@.dot_graph(names) {
                Ok(text) => r is Ok && r->Ok_0@ == text,
                Err(e) => r == Err::<String, Error>(e),
            },
    {
        let mut graph = String::new();
        if self.is_empty() {
            return Ok(graph);
        }
        graph.append("digraph {{\n");
        graph.append("    rankdir=TB;\n");
        graph.append("    node [shape=box, style=filled];\n");
        let ghost head = graph@;
        assert(head =~= "digraph {{\n"@ + "    rankdir=TB;\n"@ + "    node [shape=box, style=filled];\n"@);
        let mut nodes: Vec<NodeID> = Vec::new();
        nodes.push(self.get_root());
        assert(nodes@ =~= seq![self@.root]);
        let mut fuel = self.size();
        let ghost goal = self@.dot_walk(names, nodes@, fuel as nat);
        let ghost mut body: Seq<char> = Seq::empty();
        assert(graph@ =~= head + body);
        while nodes.len() > 0
            invariant
                graph@ == head + body,
                self@.dot_graph(names) == (match goal {
                    Ok(all) => Ok::<Seq<char>, Error>(head + all + "}}"@),
                    Err(e) => Err(e),
                }),
                goal == (match self@.dot_walk(names, nodes@, fuel as nat) {
                    Ok(rest) => Ok::<Seq<char>, Error>(body + rest),
                    Err(e) => Err(e),
                }),
            decreases fuel,
        {
            let ghost work = nodes@;
            let top = nodes.pop();
            assert(nodes@ =~= work.drop_last());
            if let Some(id) = top {
                if fuel == 0 {
                    return Err(Error::NotATree(id));
                }
                let ghost before = graph@;
                self.write_node(names, &mut graph, &mut nodes, id)?;
                proof {
                    let lines = self@.dot_node(names, id)->Ok_0;
                    match self@.dot_walk(names, nodes@, (fuel - 1) as nat) {
                        Ok(rest) => {
                            assert((body + lines) + rest =~= body + (lines + rest));
                        },
                        Err(_) => {},
                    }
                    body = body + lines;
                    assert(graph@ =~= head + body);
                }
                fuel = fuel - 1;
            }
        }
        assert(body + Seq::<char>::empty() =~= body);
        graph.append("}}");
        assert(graph@ =~= head + body + "}}"@);
        Ok(graph)
    }
}

} // verus!
