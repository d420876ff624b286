use super::node::{edge_under, lemma_edge_under, Label, Node, NodeView};
use crate::interner::{name_view, Interner};
use crate::lexicon::{ascending, LexiconNode, LexiconNodeView};
use crate::syntax::{lemma_pair_texts_fail, pair_text, pair_texts};
use crate::text::{join, joined, texts};
use vstd::string::StringExecFns;
use vstd::prelude::*;

verus! {

/// Whether `p` can be had from `q` by leaving elements out.
pub open spec fn is_subsequence(p: Seq<Label>, q: Seq<Label>) -> bool
    decreases q.len(),
{
    if p.len() == 0 {
        true
    } else if q.len() == 0 {
        false
    } else {
        ||| (p.last() == q.last() && is_subsequence(p.drop_last(), q.drop_last()))
        ||| is_subsequence(p, q.drop_last())
    }
}

/// Whether the list `r` holds the path `p` together with the value `v`.
pub open spec fn listed(r: Seq<(Vec<Label>, LexiconNode)>, p: Seq<Label>, v: LexiconNodeView) -> bool {
    exists|i: int| 0 <= i < r.len() && (#[trigger] r[i]).0@ == p && r[i].1@ == v
}

/// The edge `e` of record `n` leads to a later record, whose path is the
/// path of `n` with the edge's label appended.
pub open spec fn edge_ok(nodes: Seq<Node>, n: int, e: int) -> bool {
    let c = nodes[n].children[e].1;
    &&& n < c < nodes.len()
    &&& nodes[c as int].key@ == nodes[n].key@.push(nodes[n].children[e].0)
}

/// The edges `e1` and `e2` of record `n` bear different labels.
pub open spec fn labels_differ(nodes: Seq<Node>, n: int, e1: int, e2: int) -> bool {
    nodes[n].children[e1].0 != nodes[n].children[e2].0
}

/// Whether an edge leads to the record `c`.
pub open spec fn reached(nodes: Seq<Node>, c: int) -> bool {
    exists|n: int, e: int|
        0 <= n < nodes.len() && 0 <= e < nodes[n].children.len() && #[trigger] edge_to(nodes, n, e)
            == c
}

/// The record that the edge `e` of record `n` leads to.
pub open spec fn edge_to(nodes: Seq<Node>, n: int, e: int) -> int {
    nodes[n].children[e].1 as int
}

/// The records `a` and `b` have different paths.
pub open spec fn paths_differ(nodes: Seq<Node>, a: int, b: int) -> bool {
    nodes[a].key@ != nodes[b].key@
}

/// The values `i` and `j` of record `n` differ in content.
pub open spec fn values_differ(nodes: Seq<Node>, n: int, i: int, j: int) -> bool {
    nodes[n].values[i]@ != nodes[n].values[j]@
}

/// The arena is a tree: every edge leads to a later record whose path is
/// the parent's path with the edge's label appended; the edges of one
/// record bear different labels, every record but the root is reached by
/// an edge, no two records share a path, and no record stores a value
/// twice.
pub open spec fn tree_shaped(nodes: Seq<Node>) -> bool {
    &&& nodes.len() >= 1
    &&& nodes[0].key@.len() == 0
    &&& forall|n: int, e: int|
        0 <= n < nodes.len() && 0 <= e < nodes[n].children.len() ==> #[trigger] edge_ok(nodes, n, e)
    &&& forall|n: int, e1: int, e2: int|
        0 <= n < nodes.len() && 0 <= e1 < e2 < nodes[n].children.len() ==> #[trigger] labels_differ(
            nodes,
            n,
            e1,
            e2,
        )
    &&& forall|c: int| 0 < c < nodes.len() ==> #[trigger] reached(nodes, c)
    &&& forall|a: int, b: int| 0 <= a < b < nodes.len() ==> #[trigger] paths_differ(nodes, a, b)
    &&& forall|n: int, i: int, j: int|
        0 <= n < nodes.len() && 0 <= i < j < nodes[n].values.len() ==> #[trigger] values_differ(
            nodes,
            n,
            i,
            j,
        )
}

/// Whether some record of `nodes` has the path `p` and stores `v`.
pub open spec fn stored(nodes: Seq<Node>, p: Seq<Label>, v: LexiconNodeView) -> bool {
    exists|n: int| 0 <= n < nodes.len() && (#[trigger] nodes[n]).key@ == p && nodes[n].has_value(v)
}

/// In a tree-shaped arena a record is determined by its path.
pub proof fn lemma_path_determines_record(nodes: Seq<Node>, a: int, b: int)
    requires
        tree_shaped(nodes),
        0 <= a < nodes.len(),
        0 <= b < nodes.len(),
        nodes[a].key@ == nodes[b].key@,
    ensures
        a == b,
{
    if a < b {
        assert(paths_differ(nodes, a, b));
    } else if b < a {
        assert(paths_differ(nodes, b, a));
    }
}

/// In a tree-shaped arena only the root has the empty path.
pub proof fn lemma_root_has_empty_path(nodes: Seq<Node>, c: int)
    requires
        tree_shaped(nodes),
        0 <= c < nodes.len(),
        nodes[c].key@.len() == 0,
    ensures
        c == 0,
{
    if c > 0 {
        assert(reached(nodes, c));
        let (n, e) = choose|n: int, e: int|
            0 <= n < nodes.len() && 0 <= e < nodes[n].children.len() && #[trigger] edge_to(
                nodes,
                n,
                e,
            ) == c;
        assert(edge_ok(nodes, n, e));
    }
}

/// Whether the list of positions `frontier` holds the record `n`.
pub open spec fn in_frontier(frontier: Seq<usize>, n: int) -> bool {
    exists|j: int| 0 <= j < frontier.len() && #[trigger] frontier[j] == n
}

/// Whether the edge labelled `label` of some record in `frontier` leads to
/// the record `n`.
pub open spec fn step_reaches(nodes: Seq<Node>, frontier: Seq<usize>, label: Label, n: int) -> bool {
    exists|f: int|
        0 <= f < nodes.len() && in_frontier(frontier, f) && #[trigger] nodes[f].has_child(label, n)
}

/// Whether the edge labelled `label` of some record in `frontier` leads to
/// a record with the path `p` that stores `v`.
pub open spec fn step_finds(
    nodes: Seq<Node>,
    frontier: Seq<usize>,
    label: Label,
    p: Seq<Label>,
    v: LexiconNodeView,
) -> bool {
    exists|f: int, c: int|
        0 <= f < nodes.len() && 0 <= c < nodes.len() && in_frontier(frontier, f)
            && #[trigger] nodes[f].has_child(label, c) && nodes[c].key@ == p
            && #[trigger] nodes[c].has_value(v)
}

/// In a tree-shaped arena a record has at most one edge with a given label.
pub proof fn lemma_one_child_per_label(nodes: Seq<Node>, n: int, label: Label, a: int, b: int)
    requires
        tree_shaped(nodes),
        0 <= n < nodes.len(),
        nodes[n].has_child(label, a),
        nodes[n].has_child(label, b),
    ensures
        a == b,
{
    let e1 = choose|e: int|
        0 <= e < nodes[n].children.len() && (#[trigger] nodes[n].children[e]).0 == label
            && nodes[n].children[e].1 == a;
    let e2 = choose|e: int|
        0 <= e < nodes[n].children.len() && (#[trigger] nodes[n].children[e]).0 == label
            && nodes[n].children[e].1 == b;
    if e1 < e2 {
        assert(labels_differ(nodes, n, e1, e2));
    } else if e2 < e1 {
        assert(labels_differ(nodes, n, e2, e1));
    }
}

/// An edge of a tree-shaped arena leads to a record of the arena, whose
/// path is the parent's path with the label appended.
pub proof fn lemma_child_path(nodes: Seq<Node>, n: int, label: Label, c: int)
    requires
        tree_shaped(nodes),
        0 <= n < nodes.len(),
        nodes[n].has_child(label, c),
    ensures
        n < c < nodes.len(),
        nodes[c].key@ == nodes[n].key@.push(label),
        nodes[c].key@.len() > 0,
        nodes[c].key@.last() == label,
        nodes[c].key@.drop_last() == nodes[n].key@,
{
    let e = choose|e: int|
        0 <= e < nodes[n].children.len() && (#[trigger] nodes[n].children[e]).0 == label
            && nodes[n].children[e].1 == c;
    assert(edge_ok(nodes, n, e));
    assert(nodes[n].key@.push(label).drop_last() == nodes[n].key@);
}

/// What can be had from the first `i` labels can be had from the first
/// `i + 1`.
pub proof fn lemma_subsequence_grows(p: Seq<Label>, q: Seq<Label>, i: int)
    requires
        0 <= i < q.len(),
        is_subsequence(p, q.take(i)),
    ensures
        is_subsequence(p, q.take(i + 1)),
{
    assert(q.take(i + 1).drop_last() == q.take(i));
}

/// One step of the walk: the path of record `n` can be had from the first
/// `i + 1` labels exactly if it can be had from the first `i`, or the record
/// is reached over an edge labelled `q[i]` from a record whose path can be
/// had from the first `i`.
pub proof fn lemma_walk_step(nodes: Seq<Node>, q: Seq<Label>, i: int, n: int)
    requires
        tree_shaped(nodes),
        0 <= n < nodes.len(),
        0 <= i < q.len(),
    ensures
        is_subsequence(nodes[n].key@, q.take(i + 1)) <==> is_subsequence(nodes[n].key@, q.take(i))
            || exists|f: int|
            0 <= f < nodes.len() && is_subsequence(nodes[f].key@, q.take(i))
                && #[trigger] nodes[f].has_child(q[i], n),
{
    let p = nodes[n].key@;
    assert(q.take(i + 1).drop_last() == q.take(i));
    assert(q.take(i + 1).last() == q[i]);
    if is_subsequence(p, q.take(i + 1)) && !is_subsequence(p, q.take(i)) {
        assert(p.len() > 0);
        assert(p.last() == q[i] && is_subsequence(p.drop_last(), q.take(i)));
        if n == 0 {
            assert(false);
        }
        assert(reached(nodes, n));
        let (f, e) = choose|f: int, e: int|
            0 <= f < nodes.len() && 0 <= e < nodes[f].children.len() && #[trigger] edge_to(nodes, f, e)
                == n;
        assert(edge_ok(nodes, f, e));
        let l = nodes[f].children[e].0;
        assert(nodes[f].key@.push(l).drop_last() == nodes[f].key@);
        assert(nodes[f].key@.push(l).last() == l);
        assert(nodes[f].has_child(q[i], n));
    }
    if exists|f: int|
        0 <= f < nodes.len() && is_subsequence(nodes[f].key@, q.take(i)) && #[trigger] nodes[f].has_child(
            q[i],
            n,
        ) {
        let f = choose|f: int|
            0 <= f < nodes.len() && is_subsequence(nodes[f].key@, q.take(i))
                && #[trigger] nodes[f].has_child(q[i], n);
        lemma_child_path(nodes, f, q[i], n);
    }
    if is_subsequence(p, q.take(i)) {
        lemma_subsequence_grows(p, q, i);
    }
}

/// Stored values with their paths, by content.
pub type Pairs = Seq<(Seq<Label>, LexiconNodeView)>;

/// The content of a list of stored values with their paths.
pub open spec fn pairs_view(r: Seq<(Vec<Label>, LexiconNode)>) -> Pairs {
    r.map_values(|e: (Vec<Label>, LexiconNode)| (e.0@, e.1@))
}

/// Whether no pair occurs twice in `pairs`.
pub open spec fn distinct_pairs(pairs: Pairs) -> bool {
    forall|i: int, j: int| 0 <= i < j < pairs.len() ==> pairs[i] != pairs[j]
}

/// The content of the records `nodes`.
pub open spec fn arena_of(nodes: Seq<Node>) -> Seq<NodeView> {
    nodes.map_values(|n: Node| n@)
}

/// The values of the record `n`, in the order in which they were stored,
/// each with the record's path.
pub open spec fn record_pairs(arena: Seq<NodeView>, n: int) -> Pairs {
    arena[n].values.map_values(|v: LexiconNodeView| (arena[n].key, v))
}

/// The values of the first `n` records, record by record.
pub open spec fn arena_pairs(arena: Seq<NodeView>, n: int) -> Pairs
    decreases n,
{
    if n <= 0 {
        Seq::empty()
    } else {
        arena_pairs(arena, n - 1) + record_pairs(arena, n - 1)
    }
}

/// The frontier after the label `label`: every position of `frontier`, in
/// order, each followed by the record that its first edge labelled `label`
/// leads to, if it has one.
pub open spec fn step_frontier(arena: Seq<NodeView>, frontier: Seq<usize>, label: Label) -> Seq<usize>
    decreases frontier.len(),
{
    if frontier.len() == 0 {
        Seq::empty()
    } else {
        let rest = step_frontier(arena, frontier.drop_last(), label);
        match edge_under(arena[frontier.last() as int].children, label) {
            Some(c) => rest.push(frontier.last()).push(c),
            None => rest.push(frontier.last()),
        }
    }
}

/// What the label `label` finds from `frontier`: the values of the records
/// that the edges labelled `label` lead to, position by position.
pub open spec fn step_pairs(arena: Seq<NodeView>, frontier: Seq<usize>, label: Label) -> Pairs
    decreases frontier.len(),
{
    if frontier.len() == 0 {
        Seq::empty()
    } else {
        step_pairs(arena, frontier.drop_last(), label) + (match edge_under(
            arena[frontier.last() as int].children,
            label,
        ) {
            Some(c) => record_pairs(arena, c as int),
            None => Seq::empty(),
        })
    }
}

/// The frontier of the walk after the labels `q`: it starts at the root.
pub open spec fn walk_frontier(arena: Seq<NodeView>, q: Seq<Label>) -> Seq<usize>
    decreases q.len(),
{
    if q.len() == 0 {
        seq![0usize]
    } else {
        step_frontier(arena, walk_frontier(arena, q.drop_last()), q.last())
    }
}

/// What the walk over the labels `q` finds, label by label.
pub open spec fn walk_pairs(arena: Seq<NodeView>, q: Seq<Label>) -> Pairs
    decreases q.len(),
{
    if q.len() == 0 {
        Seq::empty()
    } else {
        walk_pairs(arena, q.drop_last()) + step_pairs(
            arena,
            walk_frontier(arena, q.drop_last()),
            q.last(),
        )
    }
}

/// The arena `arena` with a new record below the record `cur`, reached by
/// an edge labelled `label`.
pub open spec fn with_child(arena: Seq<NodeView>, cur: int, label: Label) -> Seq<NodeView> {
    arena.update(
        cur,
        NodeView {
            children: arena[cur].children.push((label, arena.len() as usize)),
            ..arena[cur]
        },
    ).push(NodeView { key: arena[cur].key.push(label), values: Seq::empty(), children: Seq::empty() })
}

/// The way down the path `path` from the root: the arena, with the records
/// that the way lacked, and where the way ends.
pub open spec fn descended(arena: Seq<NodeView>, path: Seq<Label>) -> (Seq<NodeView>, int)
    decreases path.len(),
{
    if path.len() == 0 {
        (arena, 0)
    } else {
        let before = descended(arena, path.drop_last());
        match edge_under(before.0[before.1].children, path.last()) {
            Some(c) => (before.0, c as int),
            None => (with_child(before.0, before.1, path.last()), before.0.len() as int),
        }
    }
}

/// The arena `arena` with the value `v` stored in the record `cur`, after
/// the values that the record has, unless it has the value.
pub open spec fn with_value(arena: Seq<NodeView>, cur: int, v: LexiconNodeView) -> Seq<NodeView> {
    if arena[cur].values.contains(v) {
        arena
    } else {
        arena.update(cur, NodeView { values: arena[cur].values.push(v), ..arena[cur] })
    }
}

/// The arena `arena` with the value `v` stored under the path `path`.
pub open spec fn inserted(arena: Seq<NodeView>, path: Seq<Label>, v: LexiconNodeView) -> Seq<
    NodeView,
> {
    with_value(descended(arena, path).0, descended(arena, path).1, v)
}

/// The arena with the root alone, which stores nothing.
pub open spec fn root_alone() -> Seq<NodeView> {
    seq![NodeView { key: Seq::empty(), values: Seq::empty(), children: Seq::empty() }]
}

/// Whether every label of `p` occurs in `q`.
pub open spec fn within(p: Seq<Label>, q: Seq<Label>) -> bool {
    forall|k: int| 0 <= k < p.len() ==> q.contains(#[trigger] p[k])
}

/// Whether the positions of `frontier` are records of the arena, no two
/// the same, whose paths have their labels from `q`.
pub open spec fn frontier_ok(nodes: Seq<Node>, frontier: Seq<usize>, q: Seq<Label>) -> bool {
    &&& forall|j: int| 0 <= j < frontier.len() ==> #[trigger] frontier[j] < nodes.len()
    &&& forall|i: int, j: int| 0 <= i < j < frontier.len() ==> frontier[i] != frontier[j]
    &&& forall|j: int|
        0 <= j < frontier.len() ==> within(nodes[(#[trigger] frontier[j]) as int].key@, q)
}

/// One step of the walk with a label that was not read before: the
/// frontier stays in order, and what is found is found once, under paths
/// that end in the label.
pub proof fn lemma_step_distinct(nodes: Seq<Node>, frontier: Seq<usize>, label: Label, q: Seq<Label>)
    requires
        tree_shaped(nodes),
        frontier_ok(nodes, frontier, q),
        !q.contains(label),
    ensures
        frontier_ok(nodes, step_frontier(arena_of(nodes), frontier, label), q.push(label)),
        forall|j: int|
            0 <= j < step_frontier(arena_of(nodes), frontier, label).len() ==> in_frontier(
                frontier,
                (#[trigger] step_frontier(arena_of(nodes), frontier, label)[j]) as int,
            ) || step_reaches(
                nodes,
                frontier,
                label,
                step_frontier(arena_of(nodes), frontier, label)[j] as int,
            ),
        distinct_pairs(step_pairs(arena_of(nodes), frontier, label)),
        forall|k: int|
            0 <= k < step_pairs(arena_of(nodes), frontier, label).len() ==> {
                let pair = #[trigger] step_pairs(arena_of(nodes), frontier, label)[k];
                pair.0.len() > 0 && pair.0.last() == label && step_finds(
                    nodes,
                    frontier,
                    label,
                    pair.0,
                    pair.1,
                )
            },
    decreases frontier.len(),
{
    let arena = arena_of(nodes);
    let next = step_frontier(arena, frontier, label);
    let found = step_pairs(arena, frontier, label);
    let more = q.push(label);
    assert forall|x: Label| q.contains(x) implies more.contains(x) by {
        let k = choose|k: int| 0 <= k < q.len() && q[k] == x;
        assert(more[k] == x);
    }
    assert(more[q.len() as int] == label);
    if frontier.len() > 0 {
        let front = frontier.drop_last();
        let f = frontier.last();
        assert forall|j: int| 0 <= j < front.len() implies front[j] == frontier[j] by {}
        assert(frontier_ok(nodes, front, q)) by {
            assert forall|j: int| 0 <= j < front.len() implies within(
                nodes[(#[trigger] front[j]) as int].key@,
                q,
            ) by {
                assert(front[j] == frontier[j]);
            }
        }
        lemma_step_distinct(nodes, front, label, q);
        let rest = step_frontier(arena, front, label);
        let found0 = step_pairs(arena, front, label);
        assert(frontier[frontier.len() - 1] == f);
        assert(arena[f as int].children == nodes[f as int].children@);
        lemma_edge_under(nodes[f as int].children@, label);
        assert(in_frontier(frontier, f as int));
        assert(within(nodes[f as int].key@, q));
        // what is in the front is in the frontier
        assert forall|g: int| in_frontier(front, g) implies in_frontier(frontier, g) && g != f by {
            let u = choose|u: int| 0 <= u < front.len() && #[trigger] front[u] == g;
            assert(frontier[u] == g);
        }
        assert forall|x: int| step_reaches(nodes, front, label, x) implies step_reaches(
            nodes,
            frontier,
            label,
            x,
        ) by {
            let g = choose|g: int|
                0 <= g < nodes.len() && in_frontier(front, g) && #[trigger] nodes[g].has_child(label, x);
            assert(in_frontier(frontier, g));
        }
        // no position of the rest is `f`
        assert forall|j: int| 0 <= j < rest.len() implies #[trigger] rest[j] != f by {
            let x = rest[j];
            if !in_frontier(front, x as int) {
                assert(step_reaches(nodes, front, label, x as int));
                let g = choose|g: int|
                    0 <= g < nodes.len() && in_frontier(front, g) && #[trigger] nodes[g].has_child(
                        label,
                        x as int,
                    );
                lemma_child_path(nodes, g, label, x as int);
                if x == f {
                    let key = nodes[f as int].key@;
                    assert(q.contains(key[key.len() - 1]));
                }
            }
        }
        match edge_under(nodes[f as int].children@, label) {
            Some(c) => {
                assert(nodes[f as int].has_child(label, c as int));
                lemma_child_path(nodes, f as int, label, c as int);
                let key = nodes[c as int].key@;
                assert(next == rest.push(f).push(c));
                assert(found == found0 + record_pairs(arena, c as int));
                assert(arena[c as int].key == key);
                assert(arena[c as int].values.len() == nodes[c as int].values.len());
                // no position of the rest is `c`
                assert forall|j: int| 0 <= j < rest.len() implies #[trigger] rest[j] != c by {
                    let x = rest[j];
                    if x == c {
                        if in_frontier(front, x as int) {
                            let u = choose|u: int| 0 <= u < front.len() && #[trigger] front[u] == x;
                            assert(within(nodes[front[u] as int].key@, q));
                            assert(q.contains(key[key.len() - 1]));
                        } else {
                            let g = choose|g: int|
                                0 <= g < nodes.len() && in_frontier(front, g)
                                    && #[trigger] nodes[g].has_child(label, x as int);
                            lemma_child_path(nodes, g, label, x as int);
                            lemma_path_determines_record(nodes, g, f as int);
                        }
                    }
                }
                assert(within(key, more)) by {
                    assert forall|k: int| 0 <= k < key.len() implies more.contains(#[trigger] key[k]) by {
                        if k < key.len() - 1 {
                            assert(key[k] == nodes[f as int].key@[k]);
                            assert(q.contains(nodes[f as int].key@[k]));
                        }
                    }
                }
                assert(step_reaches(nodes, frontier, label, c as int));
                assert forall|j: int| 0 <= j < next.len() implies (#[trigger] next[j]) < nodes.len()
                    && within(nodes[next[j] as int].key@, more) && (in_frontier(
                    frontier,
                    next[j] as int,
                ) || step_reaches(nodes, frontier, label, next[j] as int)) by {
                    if j < rest.len() {
                        assert(next[j] == rest[j]);
                    } else if j == rest.len() {
                        assert(next[j] == f);
                        assert forall|k: int| 0 <= k < nodes[f as int].key@.len() implies more.contains(
                            #[trigger] nodes[f as int].key@[k],
                        ) by {
                            assert(q.contains(nodes[f as int].key@[k]));
                        }
                    } else {
                        assert(next[j] == c);
                    }
                }
                assert forall|i: int, j: int| 0 <= i < j < next.len() implies next[i] != next[j] by {
                    if j < rest.len() {
                        assert(next[i] == rest[i] && next[j] == rest[j]);
                    } else if j == rest.len() {
                        assert(next[i] == rest[i]);
                    } else if i < rest.len() {
                        assert(next[i] == rest[i]);
                    }
                }
                let own = record_pairs(arena, c as int);
                assert forall|t: int| 0 <= t < own.len() implies #[trigger] own[t] == (
                    key,
                    nodes[c as int].values[t]@,
                ) by {
                    assert(arena[c as int].values[t] == nodes[c as int].values@[t]@);
                }
                assert forall|k: int| 0 <= k < found.len() implies {
                    let pair = #[trigger] found[k];
                    pair.0.len() > 0 && pair.0.last() == label && step_finds(
                        nodes,
                        frontier,
                        label,
                        pair.0,
                        pair.1,
                    )
                } by {
                    if k < found0.len() {
                        assert(found[k] == found0[k]);
                        let pair = found0[k];
                        let (g, d) = choose|g: int, d: int|
                            0 <= g < nodes.len() && 0 <= d < nodes.len() && in_frontier(front, g)
                                && #[trigger] nodes[g].has_child(label, d) && nodes[d].key@ == pair.0
                                && #[trigger] nodes[d].has_value(pair.1);
                        assert(in_frontier(frontier, g));
                    } else {
                        let t = k - found0.len();
                        assert(found[k] == own[t]);
                        assert(nodes[c as int].values[t]@ == own[t].1);
                        assert(nodes[c as int].has_value(own[t].1));
                    }
                }
                assert forall|i: int, j: int| 0 <= i < j < found.len() implies found[i] != found[j] by {
                    if j < found0.len() {
                        assert(found[i] == found0[i] && found[j] == found0[j]);
                    } else if i >= found0.len() {
                        let a = i - found0.len();
                        let b = j - found0.len();
                        assert(found[i] == own[a] && found[j] == own[b]);
                        assert(values_differ(nodes, c as int, a, b));
                    } else {
                        assert(found[i] == found0[i]);
                        let pair = found0[i];
                        assert(found[j] == own[j - found0.len()]);
                        if pair.0 == key {
                            let (g, d) = choose|g: int, d: int|
                                0 <= g < nodes.len() && 0 <= d < nodes.len() && in_frontier(front, g)
                                    && #[trigger] nodes[g].has_child(label, d) && nodes[d].key@ == pair.0
                                    && #[trigger] nodes[d].has_value(pair.1);
                            lemma_child_path(nodes, g, label, d);
                            lemma_path_determines_record(nodes, g, f as int);
                        }
                    }
                }
            },
            None => {
                assert(next == rest.push(f));
                assert(found =~= found0);
                assert forall|j: int| 0 <= j < next.len() implies (#[trigger] next[j]) < nodes.len()
                    && within(nodes[next[j] as int].key@, more) && (in_frontier(
                    frontier,
                    next[j] as int,
                ) || step_reaches(nodes, frontier, label, next[j] as int)) by {
                    if j < rest.len() {
                        assert(next[j] == rest[j]);
                    } else {
                        assert(next[j] == f);
                        assert forall|k: int| 0 <= k < nodes[f as int].key@.len() implies more.contains(
                            #[trigger] nodes[f as int].key@[k],
                        ) by {
                            assert(q.contains(nodes[f as int].key@[k]));
                        }
                    }
                }
                assert forall|i: int, j: int| 0 <= i < j < next.len() implies next[i] != next[j] by {
                    if j < rest.len() {
                        assert(next[i] == rest[i] && next[j] == rest[j]);
                    } else {
                        assert(next[i] == rest[i]);
                    }
                }
                assert forall|k: int| 0 <= k < found.len() implies {
                    let pair = #[trigger] found[k];
                    pair.0.len() > 0 && pair.0.last() == label && step_finds(
                        nodes,
                        frontier,
                        label,
                        pair.0,
                        pair.1,
                    )
                } by {
                    let pair = found0[k];
                    let (g, d) = choose|g: int, d: int|
                        0 <= g < nodes.len() && 0 <= d < nodes.len() && in_frontier(front, g)
                            && #[trigger] nodes[g].has_child(label, d) && nodes[d].key@ == pair.0
                            && #[trigger] nodes[d].has_value(pair.1);
                    assert(in_frontier(frontier, g));
                }
            },
        }
    }
}

/// The walk over labels in strictly ascending order of their categories
/// finds nothing twice.
pub proof fn lemma_walk_distinct(nodes: Seq<Node>, q: Seq<Label>)
    requires
        tree_shaped(nodes),
        ascending(q),
    ensures
        frontier_ok(nodes, walk_frontier(arena_of(nodes), q), q),
        distinct_pairs(walk_pairs(arena_of(nodes), q)),
        forall|k: int|
            0 <= k < walk_pairs(arena_of(nodes), q).len() ==> (#[trigger] walk_pairs(
                arena_of(nodes),
                q,
            )[k]).0.len() > 0 && q.contains(walk_pairs(arena_of(nodes), q)[k].0.last()),
    decreases q.len(),
{
    if q.len() > 0 {
        let prev = q.drop_last();
        let label = q.last();
        assert forall|i: int, j: int| 0 <= i < j < prev.len() implies prev[i].0 < prev[j].0 by {
            assert(q[i].0 < q[j].0);
        }
        lemma_walk_distinct(nodes, prev);
        assert(!prev.contains(label)) by {
            if prev.contains(label) {
                let k = choose|k: int| 0 <= k < prev.len() && prev[k] == label;
                assert(q[k].0 < q[q.len() - 1].0);
            }
        }
        let arena = arena_of(nodes);
        let frontier = walk_frontier(arena, prev);
        lemma_step_distinct(nodes, frontier, label, prev);
        assert(prev.push(label) =~= q);
        let old_pairs = walk_pairs(arena, prev);
        let found = step_pairs(arena, frontier, label);
        let all = walk_pairs(arena, q);
        assert(all == old_pairs + found);
        assert(q[q.len() - 1] == label);
        assert forall|k: int| 0 <= k < all.len() implies (#[trigger] all[k]).0.len() > 0 && q.contains(
            all[k].0.last(),
        ) by {
            if k < old_pairs.len() {
                assert(all[k] == old_pairs[k]);
                let x = old_pairs[k].0.last();
                let u = choose|u: int| 0 <= u < prev.len() && prev[u] == x;
                assert(q[u] == x);
            } else {
                assert(all[k] == found[k - old_pairs.len()]);
            }
        }
        assert forall|i: int, j: int| 0 <= i < j < all.len() implies all[i] != all[j] by {
            if j < old_pairs.len() {
                assert(all[i] == old_pairs[i] && all[j] == old_pairs[j]);
            } else if i >= old_pairs.len() {
                assert(all[i] == found[i - old_pairs.len()] && all[j] == found[j - old_pairs.len()]);
            } else {
                assert(all[i] == old_pairs[i] && all[j] == found[j - old_pairs.len()]);
                if all[i] == all[j] {
                    assert(prev.contains(label));
                }
            }
        }
    } else {
        let frontier = walk_frontier(arena_of(nodes), q);
        assert(frontier == seq![0usize]);
        assert(frontier[0] == 0);
    }
}

/// Whether the path of one of the first `n` records is `p`.
pub open spec fn path_among(nodes: Seq<Node>, n: int, p: Seq<Label>) -> bool {
    exists|m: int| 0 <= m < n && (#[trigger] nodes[m]).key@ == p
}

/// The records of a tree-shaped arena hold no pair twice.
pub proof fn lemma_arena_distinct(nodes: Seq<Node>, n: int)
    requires
        tree_shaped(nodes),
        0 <= n <= nodes.len(),
    ensures
        distinct_pairs(arena_pairs(arena_of(nodes), n)),
        forall|k: int|
            0 <= k < arena_pairs(arena_of(nodes), n).len() ==> path_among(
                nodes,
                n,
                (#[trigger] arena_pairs(arena_of(nodes), n)[k]).0,
            ),
    decreases n,
{
    if n > 0 {
        lemma_arena_distinct(nodes, n - 1);
        let arena = arena_of(nodes);
        let front = arena_pairs(arena, n - 1);
        let own = record_pairs(arena, n - 1);
        let all = arena_pairs(arena, n);
        assert(all == front + own);
        assert(arena[n - 1].key == nodes[n - 1].key@);
        assert forall|t: int| 0 <= t < own.len() implies #[trigger] own[t] == (
            nodes[n - 1].key@,
            nodes[n - 1].values[t]@,
        ) by {
            assert(arena[n - 1].values[t] == nodes[n - 1].values@[t]@);
        }
        assert forall|k: int| 0 <= k < all.len() implies path_among(nodes, n, (#[trigger] all[k]).0) by {
            if k < front.len() {
                assert(all[k] == front[k]);
                let m = choose|m: int| 0 <= m < n - 1 && (#[trigger] nodes[m]).key@ == front[k].0;
                assert(nodes[m].key@ == all[k].0);
            } else {
                assert(all[k] == own[k - front.len()]);
                assert(nodes[n - 1].key@ == all[k].0);
            }
        }
        assert forall|i: int, j: int| 0 <= i < j < all.len() implies all[i] != all[j] by {
            if j < front.len() {
                assert(all[i] == front[i] && all[j] == front[j]);
            } else if i >= front.len() {
                let a = i - front.len();
                let b = j - front.len();
                assert(all[i] == own[a] && all[j] == own[b]);
                assert(values_differ(nodes, n - 1, a, b));
            } else {
                assert(all[i] == front[i] && all[j] == own[j - front.len()]);
                let m = choose|m: int| 0 <= m < n - 1 && (#[trigger] nodes[m]).key@ == front[i].0;
                assert(paths_differ(nodes, m, n - 1));
            }
        }
    }
}

/// How a stored value is written: the labels of its path with a hyphen
/// between each two, an equals sign, the value, and the end of the line.
/// Nothing if a key has no name.
pub open spec fn line_text<I: Interner>(names: &I, path: Seq<Label>, v: LexiconNodeView) -> Option<Seq<char>> {
    match (pair_texts(names, path), v.text(names)) {
        (Some(labels), Some(value)) => Some(joined(labels, "-"@) + " = "@ + value + "\n"@),
        _ => None,
    }
}

/// How the stored values `r` are written, one on each line.
pub open spec fn lines_text<I: Interner>(names: &I, r: Seq<(Vec<Label>, LexiconNode)>) -> Option<Seq<char>>
    decreases r.len(),
{
    if r.len() == 0 {
        Some(Seq::empty())
    } else {
        match (lines_text(names, r.drop_last()), line_text(names, r.last().0@, r.last().1@)) {
            (Some(front), Some(last)) => Some(front + last),
            _ => None,
        }
    }
}

/// If the first `n` values cannot all be written, the values cannot.
pub proof fn lemma_lines_text_fail<I: Interner>(names: &I, r: Seq<(Vec<Label>, LexiconNode)>, n: int)
    requires
        0 <= n <= r.len(),
        lines_text(names, r.take(n)) is None,
    ensures
        lines_text(names, r) is None,
    decreases r.len() - n,
{
    if n < r.len() {
        assert(r.take(n + 1).drop_last() =~= r.take(n));
        lemma_lines_text_fail(names, r, n + 1);
    } else {
        assert(r.take(n) =~= r);
    }
}

/// The labels of `path` as they are written, each for itself.
fn label_texts<I: Interner>(names: &I, path: &Vec<Label>) -> (r: Option<Vec<String>>)
    ensures
        match pair_texts(names, path@) {
            Some(labels) => r is Some && texts(r->0@) == labels,
            None => r is None,
        },
{
    let mut labels: Vec<String> = Vec::new();
    let mut i: usize = 0;
    assert(texts(labels@) =~= Seq::<Seq<char>>::empty());
    while i < path.len()
        invariant
            i <= path.len(),
            pair_texts(names, path@.take(i as int)) == Some(texts(labels@)),
        decreases path.len() - i,
    {
        let (category, value) = path[i];
        proof {
            assert(path@.take(i + 1).drop_last() =~= path@.take(i as int));
            assert(path@.take(i + 1).last() == (category, value));
        }
        let mut label = match names.resolve(category) {
            Some(name) => name,
            None => {
                proof {
                    lemma_pair_texts_fail(names, path@, i + 1);
                }
                return None;
            },
        };
        match value {
            Some(value) => {
                label.append(":");
                match names.resolve(value) {
                    Some(name) => {
                        label.append(name.as_str());
                    },
                    None => {
                        proof {
                            lemma_pair_texts_fail(names, path@, i + 1);
                        }
                        return None;
                    },
                }
            },
            None => {},
        }
        let ghost before = texts(labels@);
        let ghost text = label@;
        labels.push(label);
        assert(texts(labels@) =~= before.push(text));
        i = i + 1;
    }
    assert(path@.take(i as int) =~= path@);
    Some(labels)
}

/// The stored values `r` as they are written, one on each line; nothing if
/// a key has no name.
pub fn write_lines<I: Interner>(names: &I, r: &Vec<(Vec<Label>, LexiconNode)>) -> (s: Option<String>)
    ensures
        name_view(s) == lines_text(names, r@),
{
    let mut s = String::new();
    let mut i: usize = 0;
    while i < r.len()
        invariant
            i <= r.len(),
            lines_text(names, r@.take(i as int)) == Some(s@),
        decreases r.len() - i,
    {
        proof {
            assert(r@.take(i + 1).drop_last() =~= r@.take(i as int));
            assert(r@.take(i + 1).last() == r@[i as int]);
        }
        let labels = label_texts(names, &r[i].0);
        let value = r[i].1.to_string(names);
        match (labels, value) {
            (Some(labels), Some(value)) => {
                s.append(join(&labels, "-").as_str());
                s.append(" = ");
                s.append(value.as_str());
                s.append("\n");
            },
            _ => {
                proof {
                    lemma_lines_text_fail(names, r@, i + 1);
                }
                return None;
            },
        }
        i = i + 1;
    }
    assert(r@.take(i as int) =~= r@);
    Some(s)
}

/// A copy of the path `path`.
fn copy_path(path: &Vec<Label>) -> (r: Vec<Label>)
    ensures
        r@ == path@,
{
    let mut r: Vec<Label> = Vec::new();
    let mut i: usize = 0;
    while i < path.len()
        invariant
            i <= path.len(),
            r@ == path@.take(i as int),
        decreases path.len() - i,
    {
        r.push(path[i]);
        assert(path@.take(i + 1) == path@.take(i as int).push(path@[i as int]));
        i = i + 1;
    }
    assert(path@.take(i as int) == path@);
    r
}

/// Whether the list `all` holds what the multimap `map` stores, each
/// stored value once.
pub open spec fn lists_all(map: &TrieMultiMap, all: Seq<(Vec<Label>, LexiconNode)>) -> bool {
    &&& forall|p: Seq<Label>, v: LexiconNodeView| #[trigger] listed(all, p, v) <==> map.stores(p, v)
    &&& distinct_pairs(pairs_view(all))
}

/// A multimap from sequences of labels to lexicon nodes, kept as a trie in
/// an append-only arena: record 0 is the root.
#[derive(Debug)]
pub struct TrieMultiMap {
    nodes: Vec<Node>,
}

impl TrieMultiMap {
    /// The records of the arena.
    pub closed spec fn records(&self) -> Seq<Node> {
        self.nodes@
    }

    /// The content of the arena, record by record.
    pub open spec fn arena(&self) -> Seq<NodeView> {
        arena_of(self.records())
    }

    /// The invariant of the arena.
    pub open spec fn wf(&self) -> bool {
        tree_shaped(self.records())
    }

    /// Whether the value `v` is stored under the path `p`.
    pub open spec fn stores(&self, p: Seq<Label>, v: LexiconNodeView) -> bool {
        stored(self.records(), p, v)
    }

    /// The empty multimap.
    pub fn new() -> (r: Self)
        ensures
            r.wf(),
            r.arena() == root_alone(),
            forall|p: Seq<Label>, v: LexiconNodeView| !r.stores(p, v),
    {
        let mut nodes: Vec<Node> = Vec::new();
        nodes.push(Node::new());
        let r = TrieMultiMap { nodes };
        proof {
            let root = r.nodes@[0]@;
            assert(root.values =~= Seq::empty());
            assert(arena_of(r.nodes@) =~= root_alone());
        }
        r
    }

    /// The number of records in the arena.
    pub fn size(&self) -> (r: usize)
        ensures
            r == self.records().len(),
    {
        self.nodes.len()
    }

    /// The record at index `id`, if there is one.
    pub fn get_node(&self, id: usize) -> (r: Option<&Node>)
        ensures
            id < self.records().len() ==> r == Some(&self.records()[id as int]),
            id >= self.records().len() ==> r is None,
    {
        if id < self.nodes.len() {
            Some(&self.nodes[id])
        } else {
            None
        }
    }

    /// Appends a record for the path of `cur` followed by `label`, and an
    /// edge from `cur` to it.
    fn add_child(&mut self, cur: usize, label: Label) -> (c: usize)
        requires
            old(self).wf(),
            cur < old(self).records().len(),
            forall|c: int| !old(self).records()[cur as int].has_child(label, c),
        ensures
            final(self).wf(),
            c == old(self).records().len(),
            final(self).records().len() == c + 1,
            final(self).records()[c as int].key@ == old(self).records()[cur as int].key@.push(label),
            final(self).arena() == with_child(old(self).arena(), cur as int, label),
            forall|p: Seq<Label>, v: LexiconNodeView| final(self).stores(p, v) <==> old(self).stores(p, v),
    {
        let c = self.nodes.len();
        let mut key = copy_path(&self.nodes[cur].key);
        key.push(label);
        let ghost before = self.nodes@;
        self.nodes.push(Node::from_key(key));
        self.nodes[cur].children.push((label, c));
        proof {
            let after = self.nodes@;
            assert(after.len() == c + 1);
            assert forall|n: int| 0 <= n < c && n != cur implies after[n] == before[n] by {}
            assert(after[cur as int].key == before[cur as int].key);
            assert(after[cur as int].values == before[cur as int].values);
            assert(after[cur as int].children@ == before[cur as int].children@.push((label, c)));
            assert(after[c as int]@.values =~= Seq::empty());
            assert(arena_of(after) =~= with_child(arena_of(before), cur as int, label));
            assert forall|n: int, e: int|
                0 <= n < after.len() && 0 <= e < after[n].children.len() implies #[trigger] edge_ok(
                after,
                n,
                e,
            ) by {
                if n == cur && e == before[cur as int].children.len() {
                } else {
                    assert(edge_ok(before, n, e));
                }
            }
            assert forall|n: int, e1: int, e2: int|
                0 <= n < after.len() && 0 <= e1 < e2 < after[n].children.len() implies #[trigger] labels_differ(
                after,
                n,
                e1,
                e2,
            ) by {
                if n == cur && e2 == before[cur as int].children.len() {
                    assert(!before[cur as int].has_child(label, before[cur as int].children[e1].1 as int));
                } else {
                    assert(labels_differ(before, n, e1, e2));
                }
            }
            assert forall|d: int| 0 < d < after.len() implies #[trigger] reached(after, d) by {
                if d == c {
                    assert(edge_to(after, cur as int, before[cur as int].children.len() as int) == c);
                } else {
                    assert(reached(before, d));
                    let (n, e) = choose|n: int, e: int|
                        0 <= n < before.len() && 0 <= e < before[n].children.len()
                            && #[trigger] edge_to(before, n, e) == d;
                    assert(edge_to(after, n, e) == d);
                }
            }
            assert forall|a: int, b: int| 0 <= a < b < after.len() implies #[trigger] paths_differ(
                after,
                a,
                b,
            ) by {
                if b == c {
                    if after[a].key@ == after[c as int].key@ {
                        assert(after[a].key@.len() > 0);
                        assert(a != 0);
                        assert(reached(before, a));
                        let (n, e) = choose|n: int, e: int|
                            0 <= n < before.len() && 0 <= e < before[n].children.len()
                                && #[trigger] edge_to(before, n, e) == a;
                        assert(edge_ok(before, n, e));
                        let l = before[n].children[e].0;
                        assert(before[n].key@.push(l).drop_last() == before[n].key@);
                        assert(before[cur as int].key@.push(label).drop_last() == before[cur as int].key@);
                        assert(before[n].key@.push(l).last() == l);
                        assert(before[cur as int].key@.push(label).last() == label);
                        lemma_path_determines_record(before, n, cur as int);
                        assert(before[cur as int].has_child(label, a));
                        assert(false);
                    }
                } else {
                    assert(paths_differ(before, a, b));
                }
            }
            assert forall|n: int, i: int, j: int|
                0 <= n < after.len() && 0 <= i < j < after[n].values.len() implies #[trigger] values_differ(
                after,
                n,
                i,
                j,
            ) by {
                assert(values_differ(before, n, i, j));
            }
            assert forall|p: Seq<Label>, v: LexiconNodeView| stored(after, p, v) <==> stored(
                before,
                p,
                v,
            ) by {
                if stored(after, p, v) {
                    let n = choose|n: int|
                        0 <= n < after.len() && (#[trigger] after[n]).key@ == p && after[n].has_value(v);
                    assert(n != c);
                    assert(before[n].key@ == p && before[n].has_value(v));
                }
                if stored(before, p, v) {
                    let n = choose|n: int|
                        0 <= n < before.len() && (#[trigger] before[n]).key@ == p && before[n].has_value(
                            v,
                        );
                    assert(after[n].key@ == p && after[n].has_value(v));
                }
            }
        }
        c
    }

    /// Stores `value` in the record `cur`, unless a value with the same
    /// content is stored there already; says whether it was added.
    fn store(&mut self, cur: usize, value: LexiconNode) -> (r: bool)
        requires
            old(self).wf(),
            cur < old(self).records().len(),
        ensures
            final(self).wf(),
            r == !old(self).stores(old(self).records()[cur as int].key@, value@),
            forall|p: Seq<Label>, v: LexiconNodeView|
                final(self).stores(p, v) <==> old(self).stores(p, v) || (p == old(
                    self,
                ).records()[cur as int].key@ && v == value@),
            final(self).arena() == with_value(old(self).arena(), cur as int, value@),
    {
        let ghost before = self.nodes@;
        let ghost content = value@;
        let r = self.nodes[cur].add_value(value);
        proof {
            let after = self.nodes@;
            let path = before[cur as int].key@;
            assert forall|n: int| 0 <= n < after.len() && n != cur implies after[n] == before[n] by {}
            let had = before[cur as int]@.values;
            if before[cur as int].has_value(content) {
                let t = choose|t: int|
                    0 <= t < before[cur as int].values.len() && before[cur as int].values[t]@ == content;
                assert(had[t] == content);
            }
            if had.contains(content) {
                let t = choose|t: int| 0 <= t < had.len() && had[t] == content;
                assert(before[cur as int].values[t]@ == content);
            }
            assert(after[cur as int]@.key == before[cur as int]@.key);
            assert(after[cur as int]@.children == before[cur as int]@.children);
            if r {
                assert(after[cur as int]@.values =~= had.push(content));
            } else {
                assert(after[cur as int]@.values =~= had);
            }
            assert(arena_of(after) =~= with_value(arena_of(before), cur as int, content));
            assert forall|n: int, e: int|
                0 <= n < after.len() && 0 <= e < after[n].children.len() implies #[trigger] edge_ok(
                after,
                n,
                e,
            ) by {
                assert(edge_ok(before, n, e));
            }
            assert forall|n: int, e1: int, e2: int|
                0 <= n < after.len() && 0 <= e1 < e2 < after[n].children.len() implies #[trigger] labels_differ(
                after,
                n,
                e1,
                e2,
            ) by {
                assert(labels_differ(before, n, e1, e2));
            }
            assert forall|d: int| 0 < d < after.len() implies #[trigger] reached(after, d) by {
                assert(reached(before, d));
                let (n, e) = choose|n: int, e: int|
                    0 <= n < before.len() && 0 <= e < before[n].children.len() && #[trigger] edge_to(
                        before,
                        n,
                        e,
                    ) == d;
                assert(edge_to(after, n, e) == d);
            }
            assert forall|a: int, b: int| 0 <= a < b < after.len() implies #[trigger] paths_differ(
                after,
                a,
                b,
            ) by {
                assert(paths_differ(before, a, b));
            }
            assert forall|n: int, i: int, j: int|
                0 <= n < after.len() && 0 <= i < j < after[n].values.len() implies #[trigger] values_differ(
                after,
                n,
                i,
                j,
            ) by {
                if n == cur && r && j == before[cur as int].values.len() {
                    assert(before[cur as int].values[i]@ != content);
                } else {
                    assert(values_differ(before, n, i, j));
                }
            }
            if stored(before, path, content) {
                let n = choose|n: int|
                    0 <= n < before.len() && (#[trigger] before[n]).key@ == path && before[n].has_value(
                        content,
                    );
                lemma_path_determines_record(before, n, cur as int);
            }
            assert forall|p: Seq<Label>, v: LexiconNodeView|
                stored(after, p, v) <==> stored(before, p, v) || (p == path && v == content) by {
                if stored(after, p, v) {
                    let n = choose|n: int|
                        0 <= n < after.len() && (#[trigger] after[n]).key@ == p && after[n].has_value(v);
                    if n == cur {
                        let i = choose|i: int| 0 <= i < after[n].values.len() && after[n].values[i]@ == v;
                        if i < before[n].values.len() {
                            assert(before[n].values[i]@ == v);
                            assert(before[n].has_value(v));
                        }
                    } else {
                        assert(before[n].key@ == p && before[n].has_value(v));
                    }
                }
                if stored(before, p, v) {
                    let n = choose|n: int|
                        0 <= n < before.len() && (#[trigger] before[n]).key@ == p && before[n].has_value(
                            v,
                        );
                    let i = choose|i: int| 0 <= i < before[n].values.len() && before[n].values[i]@ == v;
                    assert(after[n].values[i]@ == v);
                    assert(after[n].key@ == p && after[n].has_value(v));
                }
                if p == path && v == content {
                    if r {
                        assert(after[cur as int].values[before[cur as int].values.len() as int]@ == v);
                    }
                    assert(after[cur as int].has_value(v));
                    assert(after[cur as int].key@ == p);
                }
            }
        }
        r
    }

    /// Stores `value` under the path `sorted_keys`, unless a value with the
    /// same content is stored there already; says whether it was added.
    /// The records that the path lacks are appended to the arena, the value
    /// comes after the values that its record has.
    pub fn insert(&mut self, sorted_keys: Vec<Label>, value: LexiconNode) -> (r: bool)
        requires
            old(self).wf(),
        ensures
            final(self).wf(),
            r == !old(self).stores(sorted_keys@, value@),
            forall|p: Seq<Label>, v: LexiconNodeView|
                final(self).stores(p, v) <==> old(self).stores(p, v) || (p == sorted_keys@ && v
                    == value@),
            final(self).arena() == inserted(old(self).arena(), sorted_keys@, value@),
    {
        let mut cur: usize = 0;
        let mut i: usize = 0;
        while i < sorted_keys.len()
            invariant
                self.wf(),
                i <= sorted_keys.len(),
                cur < self.records().len(),
                (self.arena(), cur as int) == descended(old(self).arena(), sorted_keys@.take(i as int)),
                self.records()[cur as int].key@ == sorted_keys@.take(i as int),
                forall|p: Seq<Label>, v: LexiconNodeView| self.stores(p, v) <==> old(self).stores(p, v),
            decreases sorted_keys.len() - i,
        {
            let label = sorted_keys[i];
            assert(sorted_keys@.take(i + 1) == sorted_keys@.take(i as int).push(label));
            assert(sorted_keys@.take(i + 1).drop_last() =~= sorted_keys@.take(i as int));
            assert(self.arena()[cur as int].children == self.nodes@[cur as int].children@);
            match self.nodes[cur].find_child(&label) {
                Some(c) => {
                    proof {
                        lemma_child_path(self.nodes@, cur as int, label, c as int);
                    }
                    cur = c;
                },
                None => {
                    cur = self.add_child(cur, label);
                },
            }
            i = i + 1;
        }
        assert(sorted_keys@.take(i as int) == sorted_keys@);
        self.store(cur, value)
    }

    /// Moves every position of `frontier` along the edge labelled `label`,
    /// where there is one, and keeps the position itself; appends to `out`
    /// what is stored at the positions newly reached.
    fn advance(
        &self,
        frontier: &Vec<usize>,
        label: &Label,
        out: &mut Vec<(Vec<Label>, LexiconNode)>,
    ) -> (next: Vec<usize>)
        requires
            self.wf(),
            forall|j: int| 0 <= j < frontier@.len() ==> frontier@[j] < self.records().len(),
        ensures
            forall|j: int| 0 <= j < next@.len() ==> next@[j] < self.records().len(),
            forall|n: int|
                in_frontier(next@, n) <==> in_frontier(frontier@, n) || step_reaches(
                    self.records(),
                    frontier@,
                    *label,
                    n,
                ),
            forall|p: Seq<Label>, v: LexiconNodeView|
                #[trigger] listed(final(out)@, p, v) <==> listed(old(out)@, p, v) || step_finds(
                    self.records(),
                    frontier@,
                    *label,
                    p,
                    v,
                ),
            next@ == step_frontier(self.arena(), frontier@, *label),
            pairs_view(final(out)@) == pairs_view(old(out)@) + step_pairs(
                self.arena(),
                frontier@,
                *label,
            ),
    {
        let mut next: Vec<usize> = Vec::new();
        let mut j: usize = 0;
        let ghost arena = arena_of(self.nodes@);
        assert(pairs_view(out@) =~= pairs_view(old(out)@) + step_pairs(
            arena,
            frontier@.take(0),
            *label,
        ));
        while j < frontier.len()
            invariant
                self.wf(),
                arena == arena_of(self.nodes@),
                next@ == step_frontier(arena, frontier@.take(j as int), *label),
                pairs_view(out@) == pairs_view(old(out)@) + step_pairs(
                    arena,
                    frontier@.take(j as int),
                    *label,
                ),
                j <= frontier@.len(),
                forall|j: int| 0 <= j < frontier@.len() ==> frontier@[j] < self.records().len(),
                forall|j: int| 0 <= j < next@.len() ==> next@[j] < self.records().len(),
                forall|n: int|
                    in_frontier(next@, n) <==> in_frontier(frontier@.take(j as int), n) || step_reaches(
                        self.records(),
                        frontier@.take(j as int),
                        *label,
                        n,
                    ),
                forall|p: Seq<Label>, v: LexiconNodeView|
                    #[trigger] listed(out@, p, v) <==> listed(old(out)@, p, v) || step_finds(
                        self.records(),
                        frontier@.take(j as int),
                        *label,
                        p,
                        v,
                    ),
            decreases frontier@.len() - j,
        {
            let f = frontier[j];
            let ghost seen = frontier@.take(j as int);
            let ghost more = frontier@.take(j + 1);
            let ghost next_before = next@;
            let ghost out_before = out@;
            let ghost nodes = self.nodes@;
            next.push(f);
            let found = self.nodes[f].find_child(label);
            match found {
                Some(c) => {
                    proof {
                        lemma_child_path(nodes, f as int, *label, c as int);
                    }
                    next.push(c);
                    self.list_values(c, out);
                },
                None => {},
            }
            proof {
                assert(more.drop_last() =~= seen);
                assert(more.last() == f);
                assert(arena[f as int].children == nodes[f as int].children@);
                assert(pairs_view(out@) =~= pairs_view(old(out)@) + step_pairs(arena, more, *label));
                assert(more[j as int] == f);
                assert(in_frontier(more, f as int));
                assert forall|n: int| in_frontier(seen, n) implies in_frontier(more, n) by {
                    let u = choose|u: int| 0 <= u < seen.len() && #[trigger] seen[u] == n;
                    assert(more[u] == n);
                }
                assert forall|n: int| in_frontier(more, n) implies in_frontier(seen, n) || n == f by {
                    let u = choose|u: int| 0 <= u < more.len() && #[trigger] more[u] == n;
                    if u < j {
                        assert(seen[u] == n);
                    }
                }
                assert forall|n: int| in_frontier(next_before, n) implies in_frontier(next@, n) by {
                    let t = choose|t: int| 0 <= t < next_before.len() && #[trigger] next_before[t] == n;
                    assert(next@[t] == n);
                }
                assert(next@[next_before.len() as int] == f);
                assert(in_frontier(next@, f as int));
                if found is Some {
                    assert(next@[next_before.len() as int + 1] == found->0);
                    assert(in_frontier(next@, found->0 as int));
                }
                assert forall|n: int| in_frontier(next@, n) implies in_frontier(next_before, n) || n
                    == f || (found is Some && n == found->0) by {
                    let t = choose|t: int| 0 <= t < next@.len() && #[trigger] next@[t] == n;
                    if t < next_before.len() {
                        assert(next_before[t] == n);
                    }
                }
                assert forall|n: int| in_frontier(next@, n) implies in_frontier(more, n) || step_reaches(
                    nodes,
                    more,
                    *label,
                    n,
                ) by {
                    if in_frontier(next_before, n) {
                        if !in_frontier(seen, n) {
                            assert(step_reaches(nodes, seen, *label, n));
                            let g = choose|g: int|
                                0 <= g < nodes.len() && in_frontier(seen, g)
                                    && #[trigger] nodes[g].has_child(*label, n);
                            assert(in_frontier(more, g));
                        }
                    } else if n != f {
                        assert(nodes[f as int].has_child(*label, n));
                    }
                }
                assert forall|n: int|
                    in_frontier(more, n) || step_reaches(nodes, more, *label, n) implies in_frontier(
                    next@,
                    n,
                ) by {
                    if in_frontier(more, n) {
                        if in_frontier(seen, n) {
                            assert(in_frontier(next_before, n));
                        }
                    } else {
                        let g = choose|g: int|
                            0 <= g < nodes.len() && in_frontier(more, g) && #[trigger] nodes[g].has_child(
                                *label,
                                n,
                            );
                        if g == f {
                            assert(found is Some);
                            lemma_one_child_per_label(nodes, f as int, *label, n, found->0 as int);
                        } else {
                            assert(in_frontier(seen, g));
                            assert(step_reaches(nodes, seen, *label, n));
                            assert(in_frontier(next_before, n));
                        }
                    }
                }
                assert forall|p: Seq<Label>, v: LexiconNodeView| #[trigger]
                    listed(out@, p, v) implies listed(old(out)@, p, v) || step_finds(
                    nodes,
                    more,
                    *label,
                    p,
                    v,
                ) by {
                    if listed(out_before, p, v) {
                        if !listed(old(out)@, p, v) {
                            assert(step_finds(nodes, seen, *label, p, v));
                            let (g, c) = choose|g: int, c: int|
                                0 <= g < nodes.len() && 0 <= c < nodes.len() && in_frontier(seen, g)
                                    && #[trigger] nodes[g].has_child(*label, c) && nodes[c].key@ == p
                                    && #[trigger] nodes[c].has_value(v);
                            assert(in_frontier(more, g));
                        }
                    } else {
                        assert(found is Some);
                        assert(nodes[f as int].has_child(*label, found->0 as int));
                        assert(nodes[found->0 as int].has_value(v));
                    }
                }
                assert forall|p: Seq<Label>, v: LexiconNodeView|
                    listed(old(out)@, p, v) || step_finds(
                        nodes,
                        more,
                        *label,
                        p,
                        v,
                    ) implies #[trigger] listed(out@, p, v) by {
                    if listed(old(out)@, p, v) {
                        assert(listed(out_before, p, v));
                    } else {
                        let (g, c) = choose|g: int, c: int|
                            0 <= g < nodes.len() && 0 <= c < nodes.len() && in_frontier(more, g)
                                && #[trigger] nodes[g].has_child(*label, c) && nodes[c].key@ == p
                                && #[trigger] nodes[c].has_value(v);
                        if g == f {
                            assert(found is Some);
                            lemma_one_child_per_label(nodes, f as int, *label, c, found->0 as int);
                        } else {
                            assert(in_frontier(seen, g));
                            assert(step_finds(nodes, seen, *label, p, v));
                            assert(listed(out_before, p, v));
                        }
                    }
                }
            }
            j = j + 1;
        }
        assert(frontier@.take(j as int) == frontier@);
        next
    }

    /// Every stored value whose path is not empty and can be had from
    /// `sorted_keys` by leaving labels out, with that path. The walk keeps a
    /// frontier of the records whose path can be had from the labels read
    /// so far: each label leaves every such record in place and moves it
    /// along its edge with that label, if it has one. The values come in
    /// the order in which the walk finds them; where the labels ascend
    /// strictly, each comes once.
    pub fn get_subsets(&self, sorted_keys: &Vec<Label>) -> (r: Vec<(Vec<Label>, LexiconNode)>)
        requires
            self.wf(),
        ensures
            forall|p: Seq<Label>, v: LexiconNodeView|
                #[trigger] listed(r@, p, v) <==> p.len() > 0 && self.stores(p, v) && is_subsequence(
                    p,
                    sorted_keys@,
                ),
            pairs_view(r@) == walk_pairs(self.arena(), sorted_keys@),
            ascending(sorted_keys@) ==> distinct_pairs(pairs_view(r@)),
    {
        let mut frontier: Vec<usize> = Vec::new();
        frontier.push(0);
        let mut results: Vec<(Vec<Label>, LexiconNode)> = Vec::new();
        let mut i: usize = 0;
        proof {
            let nodes = self.nodes@;
            assert forall|n: int| 0 <= n < nodes.len() implies (in_frontier(frontier@, n)
                <==> is_subsequence(#[trigger] nodes[n].key@, sorted_keys@.take(0))) by {
                if is_subsequence(nodes[n].key@, sorted_keys@.take(0)) {
                    lemma_root_has_empty_path(nodes, n);
                    assert(frontier@[0] == 0);
                }
            }
        }
        assert(frontier@ =~= seq![0usize]);
        assert(pairs_view(results@) =~= Seq::empty());
        while i < sorted_keys.len()
            invariant
                self.wf(),
                i <= sorted_keys.len(),
                frontier@ == walk_frontier(self.arena(), sorted_keys@.take(i as int)),
                pairs_view(results@) == walk_pairs(self.arena(), sorted_keys@.take(i as int)),
                forall|j: int| 0 <= j < frontier@.len() ==> frontier@[j] < self.records().len(),
                forall|n: int|
                    0 <= n < self.records().len() ==> (in_frontier(frontier@, n) <==> is_subsequence(
                        #[trigger] self.records()[n].key@,
                        sorted_keys@.take(i as int),
                    )),
                forall|p: Seq<Label>, v: LexiconNodeView|
                    #[trigger] listed(results@, p, v) <==> p.len() > 0 && self.stores(p, v) && is_subsequence(
                        p,
                        sorted_keys@.take(i as int),
                    ),
            decreases sorted_keys.len() - i,
        {
            let ghost nodes = self.nodes@;
            let ghost q = sorted_keys@;
            let ghost before = frontier@;
            let ghost results_before = results@;
            let label = sorted_keys[i];
            let next = self.advance(&frontier, &label, &mut results);
            proof {
                assert(q.take(i + 1).drop_last() =~= q.take(i as int));
                assert(q.take(i + 1).last() == label);
                assert forall|n: int| 0 <= n < nodes.len() implies (in_frontier(next@, n)
                    <==> is_subsequence(#[trigger] nodes[n].key@, q.take(i + 1))) by {
                    lemma_walk_step(nodes, q, i as int, n);
                    if step_reaches(nodes, before, label, n) {
                        let g = choose|g: int|
                            0 <= g < nodes.len() && in_frontier(before, g) && #[trigger] nodes[g].has_child(
                                label,
                                n,
                            );
                        assert(is_subsequence(nodes[g].key@, q.take(i as int)));
                    }
                    if is_subsequence(nodes[n].key@, q.take(i + 1)) && !is_subsequence(
                        nodes[n].key@,
                        q.take(i as int),
                    ) {
                        let g = choose|g: int|
                            0 <= g < nodes.len() && is_subsequence(nodes[g].key@, q.take(i as int))
                                && #[trigger] nodes[g].has_child(q[i as int], n);
                        assert(in_frontier(before, g));
                    }
                }
                assert forall|p: Seq<Label>, v: LexiconNodeView|
                    #[trigger] listed(results@, p, v) <==> p.len() > 0 && stored(nodes, p, v) && is_subsequence(
                        p,
                        q.take(i + 1),
                    ) by {
                    if step_finds(nodes, before, label, p, v) {
                        let (g, c) = choose|g: int, c: int|
                            0 <= g < nodes.len() && 0 <= c < nodes.len() && in_frontier(before, g)
                                && #[trigger] nodes[g].has_child(label, c) && nodes[c].key@ == p
                                && #[trigger] nodes[c].has_value(v);
                        lemma_child_path(nodes, g, label, c);
                        assert(is_subsequence(nodes[g].key@, q.take(i as int)));
                        lemma_walk_step(nodes, q, i as int, c);
                    }
                    if listed(results_before, p, v) {
                        lemma_subsequence_grows(p, q, i as int);
                    }
                    if p.len() > 0 && stored(nodes, p, v) && is_subsequence(p, q.take(i + 1)) {
                        let n = choose|n: int|
                            0 <= n < nodes.len() && (#[trigger] nodes[n]).key@ == p && nodes[n].has_value(
                                v,
                            );
                        lemma_walk_step(nodes, q, i as int, n);
                        if !is_subsequence(p, q.take(i as int)) {
                            let g = choose|g: int|
                                0 <= g < nodes.len() && is_subsequence(nodes[g].key@, q.take(i as int))
                                    && #[trigger] nodes[g].has_child(q[i as int], n);
                            assert(in_frontier(before, g));
                            assert(step_finds(nodes, before, label, p, v));
                        }
                    }
                }
            }
            frontier = next;
            i = i + 1;
        }
        assert(sorted_keys@.take(i as int) == sorted_keys@);
        proof {
            if ascending(sorted_keys@) {
                lemma_walk_distinct(self.nodes@, sorted_keys@);
            }
        }
        results
    }

    /// The multimap as it is written: every stored value on a line of its
    /// own, after the labels of its path, record by record. Nothing if a
    /// key has no name.
    pub fn to_string<I: Interner>(&self, names: &I) -> (r: Option<String>)
        requires
            self.wf(),
        ensures
            exists|all: Seq<(Vec<Label>, LexiconNode)>| #[trigger]
                lists_all(self, all) && pairs_view(all) == arena_pairs(
                    self.arena(),
                    self.arena().len() as int,
                ) && name_view(r) == lines_text(names, all),
    {
        let all = self.iter();
        let r = write_lines(names, &all);
        assert(lists_all(self, all@) && pairs_view(all@) == arena_pairs(
            self.arena(),
            self.arena().len() as int,
        ) && name_view(r) == lines_text(names, all@));
        r
    }

    /// Every stored value with the path it is stored under: the values of
    /// each record in the order in which they were stored, record by
    /// record; in a well-formed multimap each stored value once.
    pub fn iter(&self) -> (r: Vec<(Vec<Label>, LexiconNode)>)
        ensures
            forall|p: Seq<Label>, v: LexiconNodeView| #[trigger] listed(r@, p, v) <==> self.stores(p, v),
            pairs_view(r@) == arena_pairs(self.arena(), self.arena().len() as int),
            self.wf() ==> distinct_pairs(pairs_view(r@)),
    {
        let mut r: Vec<(Vec<Label>, LexiconNode)> = Vec::new();
        let mut n: usize = 0;
        assert(pairs_view(r@) =~= arena_pairs(self.arena(), 0));
        while n < self.nodes.len()
            invariant
                n <= self.nodes.len(),
                pairs_view(r@) == arena_pairs(self.arena(), n as int),
                forall|p: Seq<Label>, v: LexiconNodeView|
                    #[trigger] listed(r@, p, v) <==> stored(self.nodes@.take(n as int), p, v),
            decreases self.nodes.len() - n,
        {
            let ghost before = r@;
            self.list_values(n, &mut r);
            proof {
                let done = self.nodes@.take(n as int);
                let more = self.nodes@.take(n + 1);
                assert forall|p: Seq<Label>, v: LexiconNodeView| #[trigger] listed(r@, p, v) <==> stored(
                    more,
                    p,
                    v,
                ) by {
                    if stored(more, p, v) {
                        let m = choose|m: int|
                            0 <= m < more.len() && (#[trigger] more[m]).key@ == p && more[m].has_value(v);
                        if m < n {
                            assert(done[m].key@ == p && done[m].has_value(v));
                        }
                    }
                    if stored(done, p, v) {
                        let m = choose|m: int|
                            0 <= m < done.len() && (#[trigger] done[m]).key@ == p && done[m].has_value(v);
                        assert(more[m].key@ == p && more[m].has_value(v));
                    }
                    if self.nodes@[n as int].key@ == p && self.nodes@[n as int].has_value(v) {
                        assert(more[n as int].key@ == p && more[n as int].has_value(v));
                    }
                }
            }
            n = n + 1;
        }
        assert(self.nodes@.take(n as int) == self.nodes@);
        proof {
            if self.wf() {
                lemma_arena_distinct(self.nodes@, n as int);
            }
        }
        r
    }

    /// Appends to `out` every value of the record `n`, with the record's
    /// path.
    fn list_values(&self, n: usize, out: &mut Vec<(Vec<Label>, LexiconNode)>)
        requires
            n < self.records().len(),
        ensures
            forall|p: Seq<Label>, v: LexiconNodeView|
                #[trigger] listed(final(out)@, p, v) <==> listed(old(out)@, p, v) || (self.records()[n as int].key@
                    == p && self.records()[n as int].has_value(v)),
            pairs_view(final(out)@) == pairs_view(old(out)@) + record_pairs(self.arena(), n as int),
    {
        let node = &self.nodes[n];
        let mut t: usize = 0;
        let ghost arena = arena_of(self.nodes@);
        assert(pairs_view(out@) =~= pairs_view(old(out)@) + record_pairs(arena, n as int).take(0));
        while t < node.values.len()
            invariant
                t <= node.values.len(),
                n < self.nodes@.len(),
                *node == self.nodes@[n as int],
                arena == arena_of(self.nodes@),
                pairs_view(out@) == pairs_view(old(out)@) + record_pairs(arena, n as int).take(t as int),
                forall|p: Seq<Label>, v: LexiconNodeView|
                    #[trigger] listed(out@, p, v) <==> listed(old(out)@, p, v) || (node.key@ == p && exists|i: int|
                        0 <= i < t && node.values[i]@ == v),
            decreases node.values.len() - t,
        {
            let ghost before = out@;
            out.push((copy_path(&node.key), node.values[t].clone()));
            proof {
                let after = out@;
                let all = record_pairs(arena, n as int);
                assert(arena[n as int].values[t as int] == node.values@[t as int]@);
                assert(all[t as int] == (node.key@, node.values@[t as int]@));
                assert(pairs_view(after) =~= pairs_view(before).push(all[t as int]));
                assert(all.take(t + 1) =~= all.take(t as int).push(all[t as int]));
                assert(pairs_view(after) =~= pairs_view(old(out)@) + all.take(t + 1));
                assert forall|p: Seq<Label>, v: LexiconNodeView|
                    #[trigger] listed(after, p, v) <==> listed(old(out)@, p, v) || (node.key@ == p && exists|i: int|
                        0 <= i < t + 1 && node.values[i]@ == v) by {
                    if listed(after, p, v) {
                        let i = choose|i: int|
                            0 <= i < after.len() && (#[trigger] after[i]).0@ == p && after[i].1@ == v;
                        if i < before.len() {
                            assert(before[i].0@ == p && before[i].1@ == v);
                            assert(listed(before, p, v));
                        } else {
                            assert(node.values[t as int]@ == v);
                        }
                    }
                    if listed(before, p, v) {
                        let i = choose|i: int|
                            0 <= i < before.len() && (#[trigger] before[i]).0@ == p && before[i].1@ == v;
                        assert(after[i].0@ == p && after[i].1@ == v);
                    }
                    if node.key@ == p && exists|i: int| 0 <= i < t + 1 && node.values[i]@ == v {
                        let i = choose|i: int| 0 <= i < t + 1 && node.values[i]@ == v;
                        if i == t {
                            assert(after[before.len() as int].0@ == p && after[before.len() as int].1@ == v);
                        }
                    }
                }
            }
            t = t + 1;
        }
        assert(record_pairs(arena, n as int).take(t as int) =~= record_pairs(arena, n as int));
    }
}

} // verus!
