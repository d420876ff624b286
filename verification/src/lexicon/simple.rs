use super::entry::{LexiconEntry, LexiconEntryView};
use super::listing::{
    ascending, features_of, lemma_ascending_lists, lemma_gathered_lists,
    lemma_listing_determines_features, lemma_listing_is_unique, lemma_subsequence_elements,
    lemma_subsequence_length, lemma_subset_is_subsequence,
};
use super::node::{LexiconNode, LexiconNodeView};
use super::query::{answers, distinct_entries, fires, offered, residue, Lexicon};
use crate::interner::{name_view, Interner};
use crate::syntax::{
    gathered, holds, is_listing, FeatureSet, Features, Key, SyntaxValue, SyntaxValueView,
};
use crate::text::Text;
use crate::trie::{is_subsequence, listed, Label, TrieMultiMap};
use std::collections::HashMap;
use vstd::prelude::*;
use vstd::std_specs::iter::IteratorSpec;
use vstd::string::StringExecFns;

verus! {

/// Whether the list `nodes` holds a node with the content `n`.
pub open spec fn holds_node(nodes: Seq<LexiconNode>, n: LexiconNodeView) -> bool {
    exists|i: int| 0 <= i < nodes.len() && (#[trigger] nodes[i])@ == n
}

/// Whether no two nodes of `nodes` have the same content.
pub open spec fn distinct_nodes(nodes: Seq<LexiconNode>) -> bool {
    forall|i: int, j: int| 0 <= i < j < nodes.len() ==> (#[trigger] nodes[i])@ != (#[trigger] nodes[j])@
}

/// Appends `node` to `nodes` unless a node with the same content is there
/// already; says whether it was appended.
fn push_node(nodes: &mut Vec<LexiconNode>, node: LexiconNode) -> (r: bool)
    requires
        distinct_nodes(old(nodes)@),
    ensures
        distinct_nodes(final(nodes)@),
        r == !holds_node(old(nodes)@, node@),
        forall|n: LexiconNodeView|
            holds_node(final(nodes)@, n) <==> holds_node(old(nodes)@, n) || n == node@,
{
    let mut i: usize = 0;
    while i < nodes.len()
        invariant
            *nodes == *old(nodes),
            distinct_nodes(nodes@),
            i <= nodes.len(),
            forall|j: int| 0 <= j < i ==> (#[trigger] nodes@[j])@ != node@,
        decreases nodes.len() - i,
    {
        if nodes[i].equals(&node) {
            assert(holds_node(nodes@, node@));
            return false;
        }
        i = i + 1;
    }
    let ghost content = node@;
    nodes.push(node);
    proof {
        let before = old(nodes)@;
        let after = nodes@;
        assert(after[before.len() as int]@ == content);
        assert forall|n: LexiconNodeView| holds_node(before, n) implies holds_node(after, n) by {
            let i = choose|i: int| 0 <= i < before.len() && (#[trigger] before[i])@ == n;
            assert(after[i]@ == n);
        }
        assert forall|n: LexiconNodeView| holds_node(after, n) implies holds_node(before, n) || n
            == content by {
            let i = choose|i: int| 0 <= i < after.len() && (#[trigger] after[i])@ == n;
            if i < before.len() {
                assert(before[i]@ == n);
            }
        }
        assert forall|i: int, j: int| 0 <= i < j < after.len() implies (#[trigger] after[i])@ != (
        #[trigger] after[j])@ by {
            if j < before.len() {
                assert(before[i]@ != before[j]@);
            } else {
                assert(before[i]@ != content);
            }
        }
    }
    true
}

/// Appends `entry` to `entries` unless an entry with the same content is
/// there already.
fn push_entry(entries: &mut Vec<LexiconEntry>, entry: LexiconEntry)
    requires
        distinct_entries(old(entries)@),
    ensures
        distinct_entries(final(entries)@),
        forall|e: LexiconEntryView|
            offered(final(entries)@, e) <==> offered(old(entries)@, e) || e == entry@,
{
    let mut i: usize = 0;
    while i < entries.len()
        invariant
            *entries == *old(entries),
            distinct_entries(entries@),
            i <= entries.len(),
            forall|j: int| 0 <= j < i ==> (#[trigger] entries@[j])@ != entry@,
        decreases entries.len() - i,
    {
        if entries[i].equals(&entry) {
            assert(offered(entries@, entry@));
            return ;
        }
        i = i + 1;
    }
    let ghost content = entry@;
    entries.push(entry);
    proof {
        let before = old(entries)@;
        let after = entries@;
        assert(after[before.len() as int]@ == content);
        assert forall|e: LexiconEntryView| offered(before, e) implies offered(after, e) by {
            let i = choose|i: int| 0 <= i < before.len() && (#[trigger] before[i])@ == e;
            assert(after[i]@ == e);
        }
        assert forall|e: LexiconEntryView| offered(after, e) implies offered(before, e) || e
            == content by {
            let i = choose|i: int| 0 <= i < after.len() && (#[trigger] after[i])@ == e;
            if i < before.len() {
                assert(before[i]@ == e);
            }
        }
        assert forall|i: int, j: int| 0 <= i < j < after.len() implies (#[trigger] after[i])@ != (
        #[trigger] after[j])@ by {
            if j < before.len() {
                assert(before[i]@ != before[j]@);
            } else {
                assert(before[i]@ != content);
            }
        }
    }
}

/// The features of `fs` whose categories do not occur in `path`.
fn uncovered(fs: &FeatureSet, path: &Vec<Label>) -> (r: FeatureSet)
    ensures
        r@ == fs@.remove_keys(features_of(path@).dom()),
{
    let mut r = fs.clone();
    let mut i: usize = 0;
    while i < path.len()
        invariant
            i <= path.len(),
            r@ == fs@.remove_keys(features_of(path@.take(i as int)).dom()),
        decreases path.len() - i,
    {
        let ghost before = r@;
        r.remove(&path[i].0);
        proof {
            let seen = path@.take(i as int);
            let more = path@.take(i + 1);
            assert(more[i as int] == path@[i as int]);
            assert forall|k: Key| features_of(more).dom().contains(k) <==> features_of(
                seen,
            ).dom().contains(k) || k == path@[i as int].0 by {
                if features_of(more).dom().contains(k) {
                    let j = choose|j: int| 0 <= j < more.len() && (#[trigger] more[j]).0 == k;
                    if j < i {
                        assert(seen[j].0 == k);
                    }
                }
                if features_of(seen).dom().contains(k) {
                    let j = choose|j: int| 0 <= j < seen.len() && (#[trigger] seen[j]).0 == k;
                    assert(more[j].0 == k);
                }
            }
            assert(r@ =~= fs@.remove_keys(features_of(more).dom()));
        }
        i = i + 1;
    }
    assert(path@.take(i as int) == path@);
    r
}

/// Whether the list `all` holds a trigger with the content `t` together
/// with a node with the content `n`.
pub open spec fn holds_entry(
    all: Seq<(SyntaxValue, LexiconNode)>,
    t: SyntaxValueView,
    n: LexiconNodeView,
) -> bool {
    exists|i: int| 0 <= i < all.len() && (#[trigger] all[i]).0@ == t && all[i].1@ == n
}

/// Whether no entry occurs twice in the list `all`.
pub open spec fn distinct_list(all: Seq<(SyntaxValue, LexiconNode)>) -> bool {
    forall|i: int, j: int|
        0 <= i < j < all.len() ==> !((#[trigger] all[i]).0@ == (#[trigger] all[j]).0@ && all[i].1@
            == all[j].1@)
}

/// How an entry is written: two blanks, the trigger, ` = `, the node, and
/// the end of the line. Nothing if a key has no name.
pub open spec fn entry_line<I: Interner>(names: &I, t: SyntaxValueView, n: LexiconNodeView) -> Option<
    Text,
> {
    match (t.text(names), n.text(names)) {
        (Some(from), Some(to)) => Some("  "@ + from + " = "@ + to + "\n"@),
        _ => None,
    }
}

/// The lines of those entries of `all` whose trigger is a token, if
/// `lexical`, and of the others, if not. Nothing if a key of `all` has no
/// name.
pub open spec fn entry_lines<I: Interner>(
    names: &I,
    all: Seq<(SyntaxValue, LexiconNode)>,
    lexical: bool,
) -> Option<Text>
    decreases all.len(),
{
    if all.len() == 0 {
        Some(Seq::empty())
    } else {
        match (
            entry_lines(names, all.drop_last(), lexical),
            entry_line(names, all.last().0@, all.last().1@),
        ) {
            (Some(lines), Some(line)) => Some(
                if (all.last().0@ is Item) == lexical {
                    lines + line
                } else {
                    lines
                },
            ),
            _ => None,
        }
    }
}

/// How the entries `all` are written: those of the tokens under `Lexical
/// entries:`, then those of the feature sets under `Functional:`.
pub open spec fn entries_text<I: Interner>(names: &I, all: Seq<(SyntaxValue, LexiconNode)>) -> Option<
    Text,
> {
    match (entry_lines(names, all, true), entry_lines(names, all, false)) {
        (Some(lexical), Some(functional)) => Some(
            "Lexical entries:\n"@ + lexical + "Functional:\n"@ + functional,
        ),
        _ => None,
    }
}

/// Entries with one that cannot be written have no lines.
pub proof fn lemma_entry_lines_fail<I: Interner>(
    names: &I,
    all: Seq<(SyntaxValue, LexiconNode)>,
    n: int,
    lexical: bool,
)
    requires
        0 <= n < all.len(),
        entry_line(names, all[n].0@, all[n].1@) is None,
    ensures
        entry_lines(names, all, lexical) is None,
    decreases all.len(),
{
    if n < all.len() - 1 {
        assert(all.drop_last()[n] == all[n]);
        lemma_entry_lines_fail(names, all.drop_last(), n, lexical);
    }
}

/// Appends to `r` the token `key` with each of `nodes`.
fn push_nodes(r: &mut Vec<(SyntaxValue, LexiconNode)>, key: Key, nodes: &Vec<LexiconNode>)
    ensures
        forall|t: SyntaxValueView, n: LexiconNodeView| #[trigger]
            holds_entry(final(r)@, t, n) <==> holds_entry(old(r)@, t, n) || (t
                == SyntaxValueView::Item(key) && holds_node(nodes@, n)),
        distinct_list(old(r)@) && distinct_nodes(nodes@) && (forall|n: LexiconNodeView|
            !holds_entry(old(r)@, SyntaxValueView::Item(key), n)) ==> distinct_list(final(r)@),
{
    let ghost before = r@;
    let mut i: usize = 0;
    while i < nodes.len()
        invariant
            i <= nodes.len(),
            r@.len() == before.len() + i,
            r@.take(before.len() as int) == before,
            forall|j: int|
                0 <= j < i ==> (#[trigger] r@[before.len() + j]).0@ == SyntaxValueView::Item(key)
                    && r@[before.len() + j].1@ == nodes@[j]@,
        decreases nodes.len() - i,
    {
        let ghost earlier = r@;
        r.push((SyntaxValue::Item(key), nodes[i].clone()));
        assert(r@.take(before.len() as int) =~= earlier.take(before.len() as int));
        assert forall|j: int| 0 <= j < i + 1 implies (#[trigger] r@[before.len() + j]).0@
            == SyntaxValueView::Item(key) && r@[before.len() + j].1@ == nodes@[j]@ by {
            if j < i {
                assert(r@[before.len() + j] == earlier[before.len() + j]);
            }
        }
        i = i + 1;
    }
    proof {
        assert forall|t: SyntaxValueView, n: LexiconNodeView| #[trigger]
            holds_entry(r@, t, n) <==> holds_entry(before, t, n) || (t == SyntaxValueView::Item(key)
                && holds_node(nodes@, n)) by {
            if holds_entry(r@, t, n) {
                let x = choose|x: int| 0 <= x < r@.len() && (#[trigger] r@[x]).0@ == t && r@[x].1@ == n;
                if x < before.len() {
                    assert(r@.take(before.len() as int)[x] == r@[x]);
                    assert(before[x].0@ == t && before[x].1@ == n);
                } else {
                    let j = x - before.len();
                    assert(r@[before.len() + j].1@ == nodes@[j]@);
                }
            }
            if holds_entry(before, t, n) {
                let x = choose|x: int|
                    0 <= x < before.len() && (#[trigger] before[x]).0@ == t && before[x].1@ == n;
                assert(r@.take(before.len() as int)[x] == r@[x]);
                assert(r@[x].0@ == t && r@[x].1@ == n);
            }
            if t == SyntaxValueView::Item(key) && holds_node(nodes@, n) {
                let j = choose|j: int| 0 <= j < nodes@.len() && (#[trigger] nodes@[j])@ == n;
                assert(r@[before.len() + j].0@ == t && r@[before.len() + j].1@ == n);
            }
        }
        if distinct_list(before) && distinct_nodes(nodes@) && (forall|n: LexiconNodeView|
            !holds_entry(before, SyntaxValueView::Item(key), n)) {
            assert forall|i: int, j: int| 0 <= i < j < r@.len() implies !((#[trigger] r@[i]).0@ == (
            #[trigger] r@[j]).0@ && r@[i].1@ == r@[j].1@) by {
                if j < before.len() {
                    assert(r@.take(before.len() as int)[i] == r@[i]);
                    assert(r@.take(before.len() as int)[j] == r@[j]);
                } else if i >= before.len() {
                    let a = i - before.len();
                    let b = j - before.len();
                    assert(r@[before.len() + a].1@ == nodes@[a]@);
                    assert(r@[before.len() + b].1@ == nodes@[b]@);
                } else {
                    assert(r@.take(before.len() as int)[i] == r@[i]);
                    let b = j - before.len();
                    assert(r@[before.len() + b].0@ == SyntaxValueView::Item(key));
                    if r@[i].0@ == r@[j].0@ {
                        assert(holds_entry(before, SyntaxValueView::Item(key), before[i].1@));
                    }
                }
            }
        }
    }
}

/// A lexicon that finds the interpretations of a token in a hash map and
/// those of a feature set in a trie over the ascending pairs of the
/// triggers.
#[derive(Debug)]
pub struct SimpleLexicon {
    lexical: HashMap<Key, Vec<LexiconNode>>,
    functional: TrieMultiMap,
}

impl SimpleLexicon {
    /// The empty lexicon.
    pub fn new() -> (r: Self)
        ensures
            r.wf(),
            r.contents() == Set::<(SyntaxValueView, LexiconNodeView)>::empty(),
    {
        broadcast use vstd::std_specs::hash::group_hash_axioms;

        let r = SimpleLexicon { lexical: HashMap::new(), functional: TrieMultiMap::new() };
        assert(r.contents() =~= Set::<(SyntaxValueView, LexiconNodeView)>::empty());
        r
    }

    /// Whether `node` is stored under `trigger`.
    pub closed spec fn stores(&self, trigger: SyntaxValueView, node: LexiconNodeView) -> bool {
        match trigger {
            SyntaxValueView::Item(k) => self.lexical@.contains_key(k) && holds_node(
                self.lexical@[k]@,
                node,
            ),
            SyntaxValueView::Features(t) => exists|p: Seq<Label>|
                is_listing(p, t) && #[trigger] self.functional.stores(p, node),
        }
    }

    /// The tokens of the lexicon, each with each of its nodes.
    fn lexical_entries(&self) -> (r: Vec<(SyntaxValue, LexiconNode)>)
        requires
            self.wf(),
        ensures
            forall|t: SyntaxValueView, n: LexiconNodeView| #[trigger]
                holds_entry(r@, t, n) <==> t is Item && self.stores(t, n),
            distinct_list(r@),
    {
        broadcast use vstd::std_specs::hash::group_hash_axioms;

        let mut r: Vec<(SyntaxValue, LexiconNode)> = Vec::new();
        let iter = self.lexical.iter();
        let ghost all = iter.remaining();
        assert(all.no_duplicates());
        for kv in it: iter
            invariant
                self.wf(),
                it.seq() == all,
                all == self.lexical.iter().remaining(),
                all.no_duplicates(),
                distinct_list(r@),
                forall|t: SyntaxValueView, n: LexiconNodeView| #[trigger]
                    holds_entry(r@, t, n) <==> exists|x: int|
                        0 <= x < it.index() && t == SyntaxValueView::Item(*(#[trigger] all[x]).0)
                            && holds_node(all[x].1@, n),
        {
            let ghost before = r@;
            let ghost done = it.index();
            proof {
                assert(self.lexical@.contains_key(*all[done].0));
                assert(self.lexical@[*all[done].0] == *all[done].1);
                assert forall|n: LexiconNodeView| !holds_entry(
                    before,
                    SyntaxValueView::Item(*kv.0),
                    n,
                ) by {
                    if holds_entry(before, SyntaxValueView::Item(*kv.0), n) {
                        let x = choose|x: int|
                            0 <= x < done && SyntaxValueView::Item(*kv.0) == SyntaxValueView::Item(
                                *(#[trigger] all[x]).0,
                            ) && holds_node(all[x].1@, n);
                        assert(self.lexical@[*all[x].0] == *all[x].1);
                        assert(all[x] == all[done]);
                    }
                }
            }
            push_nodes(&mut r, *kv.0, kv.1);
            proof {
                assert forall|t: SyntaxValueView, n: LexiconNodeView| #[trigger]
                    holds_entry(r@, t, n) <==> exists|x: int|
                        0 <= x < done + 1 && t == SyntaxValueView::Item(*(#[trigger] all[x]).0)
                            && holds_node(all[x].1@, n) by {
                    if holds_entry(before, t, n) {
                        let x = choose|x: int|
                            0 <= x < done && t == SyntaxValueView::Item(*(#[trigger] all[x]).0)
                                && holds_node(all[x].1@, n);
                        assert(0 <= x < done + 1);
                    }
                    if t == SyntaxValueView::Item(*kv.0) && holds_node(kv.1@, n) {
                        assert(t == SyntaxValueView::Item(*all[done].0) && holds_node(all[done].1@, n));
                    }
                    if exists|x: int|
                        0 <= x < done + 1 && t == SyntaxValueView::Item(*(#[trigger] all[x]).0)
                            && holds_node(all[x].1@, n) {
                        let x = choose|x: int|
                            0 <= x < done + 1 && t == SyntaxValueView::Item(*(#[trigger] all[x]).0)
                                && holds_node(all[x].1@, n);
                        if x < done {
                            assert(holds_entry(before, t, n));
                        }
                    }
                }
            }
        }
        proof {
            assert forall|t: SyntaxValueView, n: LexiconNodeView| #[trigger]
                holds_entry(r@, t, n) <==> t is Item && self.stores(t, n) by {
                if holds_entry(r@, t, n) {
                    let x = choose|x: int|
                        0 <= x < all.len() && t == SyntaxValueView::Item(*(#[trigger] all[x]).0)
                            && holds_node(all[x].1@, n);
                    assert(self.lexical@.contains_key(*all[x].0));
                    assert(self.lexical@[*all[x].0] == *all[x].1);
                }
                if t is Item && self.stores(t, n) {
                    let k = t->Item_0;
                    assert(all.contains((&k, &self.lexical@[k])));
                    let x = choose|x: int| 0 <= x < all.len() && all[x] == (&k, &self.lexical@[k]);
                    assert(t == SyntaxValueView::Item(*all[x].0) && holds_node(all[x].1@, n));
                }
            }
        }
        r
    }

    /// Every entry of the lexicon, each once: a trigger with a node stored
    /// under it.
    pub fn entries(&self) -> (r: Vec<(SyntaxValue, LexiconNode)>)
        requires
            self.wf(),
        ensures
            forall|t: SyntaxValueView, n: LexiconNodeView| #[trigger]
                holds_entry(r@, t, n) <==> self.contents().contains((t, n)),
            distinct_list(r@),
    {
        let mut r = self.lexical_entries();
        let ghost lexical = r@;
        let found = self.functional.iter();
        let mut i: usize = 0;
        while i < found.len()
            invariant
                i <= found.len(),
                r@.len() == lexical.len() + i,
                r@.take(lexical.len() as int) == lexical,
                forall|j: int|
                    0 <= j < i ==> (#[trigger] r@[lexical.len() + j]).0@ == SyntaxValueView::Features(
                        gathered(found@[j].0@),
                    ) && r@[lexical.len() + j].1@ == found@[j].1@,
            decreases found.len() - i,
        {
            let ghost earlier = r@;
            let trigger = SyntaxValue::Features(FeatureSet::from_pairs(&found[i].0));
            r.push((trigger, found[i].1.clone()));
            assert(r@.take(lexical.len() as int) =~= earlier.take(lexical.len() as int));
            assert forall|j: int| 0 <= j < i + 1 implies (#[trigger] r@[lexical.len() + j]).0@
                == SyntaxValueView::Features(gathered(found@[j].0@)) && r@[lexical.len() + j].1@
                == found@[j].1@ by {
                if j < i {
                    assert(r@[lexical.len() + j] == earlier[lexical.len() + j]);
                }
            }
            i = i + 1;
        }
        proof {
            assert forall|t: SyntaxValueView, n: LexiconNodeView| #[trigger]
                holds_entry(r@, t, n) <==> self.contents().contains((t, n)) by {
                if holds_entry(r@, t, n) {
                    let x = choose|x: int|
                        0 <= x < r@.len() && (#[trigger] r@[x]).0@ == t && r@[x].1@ == n;
                    if x < lexical.len() {
                        assert(r@.take(lexical.len() as int)[x] == r@[x]);
                        assert(holds_entry(lexical, t, n));
                    } else {
                        let j = x - lexical.len();
                        assert(r@[lexical.len() + j].1@ == found@[j].1@);
                        let p = found@[j].0@;
                        assert(listed(found@, p, n));
                        assert(self.functional.stores(p, n));
                        lemma_gathered_lists(p);
                    }
                }
                if self.stores(t, n) {
                    match t {
                        SyntaxValueView::Item(_) => {
                            assert(holds_entry(lexical, t, n));
                            let x = choose|x: int|
                                0 <= x < lexical.len() && (#[trigger] lexical[x]).0@ == t
                                    && lexical[x].1@ == n;
                            assert(r@.take(lexical.len() as int)[x] == r@[x]);
                            assert(r@[x].0@ == t && r@[x].1@ == n);
                        },
                        SyntaxValueView::Features(m) => {
                            let p = choose|p: Seq<Label>|
                                is_listing(p, m) && #[trigger] self.functional.stores(p, n);
                            assert(listed(found@, p, n));
                            let j = choose|j: int|
                                0 <= j < found@.len() && (#[trigger] found@[j]).0@ == p && found@[j].1@
                                    == n;
                            lemma_gathered_lists(p);
                            lemma_listing_determines_features(p, m, gathered(p));
                            assert(r@[lexical.len() + j].0@ == t && r@[lexical.len() + j].1@ == n);
                        },
                    }
                }
            }
            let pairs = crate::trie::pairs_view(found@);
            assert forall|i: int, j: int| 0 <= i < j < r@.len() implies !((#[trigger] r@[i]).0@ == (
            #[trigger] r@[j]).0@ && r@[i].1@ == r@[j].1@) by {
                if j < lexical.len() {
                    assert(r@.take(lexical.len() as int)[i] == r@[i]);
                    assert(r@.take(lexical.len() as int)[j] == r@[j]);
                } else if i >= lexical.len() {
                    let a = i - lexical.len();
                    let b = j - lexical.len();
                    assert(r@[lexical.len() + a].1@ == found@[a].1@);
                    assert(r@[lexical.len() + b].1@ == found@[b].1@);
                    if r@[i].0@ == r@[j].0@ && r@[i].1@ == r@[j].1@ {
                        let p = found@[a].0@;
                        let q = found@[b].0@;
                        assert(listed(found@, p, found@[a].1@));
                        assert(listed(found@, q, found@[b].1@));
                        assert(self.functional.stores(p, found@[a].1@));
                        assert(self.functional.stores(q, found@[b].1@));
                        lemma_gathered_lists(p);
                        lemma_gathered_lists(q);
                        lemma_listing_is_unique(p, q, gathered(p));
                        assert(pairs[a] == (p, found@[a].1@));
                        assert(pairs[b] == (q, found@[b].1@));
                        assert(pairs[a] != pairs[b]);
                    }
                } else {
                    assert(r@.take(lexical.len() as int)[i] == r@[i]);
                    assert(holds_entry(lexical, r@[i].0@, r@[i].1@));
                    let b = j - lexical.len();
                    assert(r@[lexical.len() + b].1@ == found@[b].1@);
                }
            }
        }
        r
    }

    /// The lexicon as it is written, each of its entries once, in some
    /// order; nothing if a key has no name.
    pub fn to_string<I: Interner>(&self, names: &I) -> (r: Option<String>)
        requires
            self.wf(),
        ensures
            exists|all: Seq<(SyntaxValue, LexiconNode)>|
                (forall|t: SyntaxValueView, n: LexiconNodeView| #[trigger]
                    holds_entry(all, t, n) <==> self.contents().contains((t, n))) && distinct_list(all)
                    && name_view(r) == #[trigger] entries_text(names, all),
    {
        let all = self.entries();
        let r = write_entries(names, &all);
        assert(distinct_list(all@) && name_view(r) == entries_text(names, all@));
        r
    }

    /// The interpretations stored under the token `from`.
    fn get_lexical_entries(&self, from: Key) -> (r: Vec<LexiconEntry>)
        requires
            self.wf(),
        ensures
            forall|e: LexiconEntryView| #[trigger]
                offered(r@, e) <==> answers(self.contents(), SyntaxValueView::Item(from), e),
            distinct_entries(r@),
    {
        broadcast use vstd::std_specs::hash::group_hash_axioms;

        let mut r: Vec<LexiconEntry> = Vec::new();
        match self.lexical.get(&from) {
            Some(nodes) => {
                let mut i: usize = 0;
                while i < nodes.len()
                    invariant
                        i <= nodes.len(),
                        distinct_nodes(nodes@),
                        r@.len() == i,
                        forall|j: int|
                            0 <= j < i ==> (#[trigger] r@[j])@ == LexiconEntryView::Lexical(nodes@[j]@),
                    decreases nodes.len() - i,
                {
                    r.push(LexiconEntry::Lexical(nodes[i].clone()));
                    i = i + 1;
                }
                proof {
                    assert forall|e: LexiconEntryView| #[trigger]
                        offered(r@, e) <==> answers(self.contents(), SyntaxValueView::Item(from), e) by {
                        if offered(r@, e) {
                            let i = choose|i: int| 0 <= i < r@.len() && (#[trigger] r@[i])@ == e;
                            assert(holds_node(nodes@, nodes@[i]@));
                        }
                        if answers(self.contents(), SyntaxValueView::Item(from), e) {
                            let n = e->Lexical_0;
                            let i = choose|i: int| 0 <= i < nodes@.len() && (#[trigger] nodes@[i])@ == n;
                            assert(r@[i]@ == e);
                        }
                    }
                    assert forall|i: int, j: int| 0 <= i < j < r@.len() implies (#[trigger] r@[i])@ != (
                    #[trigger] r@[j])@ by {
                        assert(nodes@[i]@ != nodes@[j]@);
                    }
                }
            },
            None => {},
        }
        r
    }

    /// The interpretations of the triggers that fire on the query `from`,
    /// each with the features of the query that its trigger does not cover.
    fn get_functional_entries(&self, from: &FeatureSet) -> (r: Vec<LexiconEntry>)
        requires
            self.wf(),
        ensures
            forall|e: LexiconEntryView| #[trigger]
                offered(r@, e) <==> answers(self.contents(), SyntaxValueView::Features(from@), e),
            distinct_entries(r@),
    {
        let query = from.pairs();
        let found = self.functional.get_subsets(&query);
        let mut r: Vec<LexiconEntry> = Vec::new();
        let mut i: usize = 0;
        while i < found.len()
            invariant
                i <= found.len(),
                self.wf(),
                is_listing(query@, from@),
                forall|p: Seq<Label>, v: LexiconNodeView| #[trigger]
                    listed(found@, p, v) <==> p.len() > 0 && self.functional.stores(p, v)
                        && is_subsequence(p, query@),
                distinct_entries(r@),
                forall|e: LexiconEntryView| #[trigger]
                    offered(r@, e) <==> exists|j: int|
                        0 <= j < i && e == entry_of(#[trigger] found@[j], from@),
            decreases found.len() - i,
        {
            let path = &found[i].0;
            let project = if path.len() == query.len() {
                None
            } else {
                Some(uncovered(from, path))
            };
            proof {
                let p = path@;
                assert(listed(found@, p, found@[i as int].1@));
                lemma_subsequence_elements(p, query@);
                lemma_ascending_lists(p);
                lemma_subset_is_subsequence(p, features_of(p), query@, from@);
                lemma_subsequence_length(p, query@);
                if features_of(p) == from@ {
                    lemma_listing_is_unique(p, query@, from@);
                }
                if p == query@ {
                    lemma_listing_determines_features(p, features_of(p), from@);
                }
            }
            let entry = LexiconEntry::Functional { to: found[i].1.clone(), project };
            assert(entry@ == entry_of(found@[i as int], from@));
            let ghost before = r@;
            push_entry(&mut r, entry);
            proof {
                assert forall|e: LexiconEntryView| #[trigger]
                    offered(r@, e) <==> exists|j: int|
                        0 <= j < i + 1 && e == entry_of(#[trigger] found@[j], from@) by {
                    if offered(before, e) {
                        let j = choose|j: int| 0 <= j < i && e == entry_of(#[trigger] found@[j], from@);
                        assert(0 <= j < i + 1);
                    }
                    if exists|j: int| 0 <= j < i + 1 && e == entry_of(#[trigger] found@[j], from@) {
                        let j = choose|j: int|
                            0 <= j < i + 1 && e == entry_of(#[trigger] found@[j], from@);
                        if j < i {
                            assert(offered(before, e));
                        }
                    }
                }
            }
            i = i + 1;
        }
        proof {
            assert forall|e: LexiconEntryView| #[trigger]
                offered(r@, e) <==> answers(self.contents(), SyntaxValueView::Features(from@), e) by {
                if offered(r@, e) {
                    let j = choose|j: int|
                        0 <= j < found@.len() && e == entry_of(#[trigger] found@[j], from@);
                    let p = found@[j].0@;
                    let t = features_of(p);
                    assert(listed(found@, p, found@[j].1@));
                    lemma_subsequence_elements(p, query@);
                    lemma_ascending_lists(p);
                    lemma_subset_is_subsequence(p, t, query@, from@);
                    assert(t.contains_key(p[0].0));
                    assert(self.stores(SyntaxValueView::Features(t), found@[j].1@));
                    assert(self.contents().contains((SyntaxValueView::Features(t), found@[j].1@)));
                }
                if answers(self.contents(), SyntaxValueView::Features(from@), e) {
                    let to = e->to;
                    let t = choose|t: Features| #[trigger]
                        self.contents().contains((SyntaxValueView::Features(t), to)) && fires(t, from@)
                            && e->project == residue(from@, t);
                    assert(self.stores(SyntaxValueView::Features(t), to));
                    let p = choose|p: Seq<Label>| is_listing(p, t) && self.functional.stores(p, to);
                    lemma_subset_is_subsequence(p, t, query@, from@);
                    let k = choose|k: Key| t.contains_key(k);
                    assert(p.len() > 0);
                    assert(listed(found@, p, to));
                    let j = choose|j: int|
                        0 <= j < found@.len() && (#[trigger] found@[j]).0@ == p && found@[j].1@ == to;
                    lemma_ascending_lists(p);
                    lemma_listing_determines_features(p, t, features_of(p));
                    assert(e == entry_of(found@[j], from@));
                }
            }
        }
        r
    }
}

/// The entry that the lexicon makes of a stored path and node found for
/// the query `fs`.
pub open spec fn entry_of(found: (Vec<Label>, LexiconNode), fs: Features) -> LexiconEntryView {
    LexiconEntryView::Functional { to: found.1@, project: residue(fs, features_of(found.0@)) }
}

impl Lexicon for SimpleLexicon {
    /// No list of the hash map holds a node twice; the trie is well formed
    /// and each of its paths that stores a node ascends.
    closed spec fn wf(&self) -> bool {
        &&& self.functional.wf()
        &&& forall|k: Key| #[trigger]
            self.lexical@.contains_key(k) ==> distinct_nodes(self.lexical@[k]@)
        &&& forall|p: Seq<Label>, v: LexiconNodeView| #[trigger]
            self.functional.stores(p, v) ==> ascending(p)
    }

    closed spec fn contents(&self) -> Set<(SyntaxValueView, LexiconNodeView)> {
        Set::new(|e: (SyntaxValueView, LexiconNodeView)| self.stores(e.0, e.1))
    }

    fn add_entry(&mut self, from: SyntaxValue, to: LexiconNode) -> (r: bool) {
        broadcast use vstd::std_specs::hash::group_hash_axioms;

        let ghost before = *self;
        let ghost content = to@;
        match from {
            SyntaxValue::Item(key) => {
                let mut nodes = match self.lexical.remove(&key) {
                    Some(nodes) => nodes,
                    None => Vec::new(),
                };
                let ghost nodes_before = nodes@;
                assert(before.lexical@.contains_key(key) ==> nodes_before == before.lexical@[key]@);
                assert(!before.lexical@.contains_key(key) ==> nodes_before.len() == 0);
                let r = push_node(&mut nodes, to);
                let ghost nodes_after = nodes@;
                self.lexical.insert(key, nodes);
                proof {
                    assert(self.lexical@.contains_key(key) && self.lexical@[key]@ == nodes_after);
                    assert forall|k: Key| k != key implies (self.lexical@.contains_key(k)
                        == before.lexical@.contains_key(k) && (self.lexical@.contains_key(k)
                        ==> self.lexical@[k] == before.lexical@[k])) by {}
                    assert forall|t: SyntaxValueView, n: LexiconNodeView|
                        self.stores(t, n) <==> before.stores(t, n) || (t == from@ && n == content) by {
                        match t {
                            SyntaxValueView::Item(k) => {
                                if k == key {
                                    assert(holds_node(nodes_after, n) <==> holds_node(nodes_before, n)
                                        || n == content);
                                    if !before.lexical@.contains_key(key) {
                                        assert(!holds_node(nodes_before, n));
                                    }
                                    assert(self.stores(t, n) <==> before.stores(t, n) || n == content);
                                } else {
                                    assert(self.lexical@.contains_key(k) == before.lexical@.contains_key(k));
                                    assert(self.stores(t, n) <==> before.stores(t, n));
                                }
                            },
                            SyntaxValueView::Features(m) => {
                                assert(self.functional == before.functional);
                                assert(self.stores(t, n) <==> before.stores(t, n));
                            },
                        }
                    }
                    assert(self.contents() =~= before.contents().insert((from@, content)));
                }
                r
            },
            SyntaxValue::Features(fs) => {
                let path = fs.pairs();
                let r = self.functional.insert(path, to);
                proof {
                    assert forall|t: SyntaxValueView, n: LexiconNodeView|
                        self.stores(t, n) <==> before.stores(t, n) || (t == from@ && n == content) by {
                        match t {
                            SyntaxValueView::Item(k) => {},
                            SyntaxValueView::Features(m) => {
                                if self.stores(t, n) {
                                    let p = choose|p: Seq<Label>|
                                        is_listing(p, m) && #[trigger] self.functional.stores(p, n);
                                    if !before.functional.stores(p, n) {
                                        lemma_listing_determines_features(p, m, fs@);
                                    }
                                }
                                if before.stores(t, n) {
                                    let p = choose|p: Seq<Label>|
                                        is_listing(p, m) && #[trigger] before.functional.stores(p, n);
                                    assert(self.functional.stores(p, n));
                                }
                                if t == from@ && n == content {
                                    assert(self.functional.stores(path@, n));
                                }
                            },
                        }
                    }
                    if before.stores(from@, content) {
                        let p = choose|p: Seq<Label>|
                            is_listing(p, fs@) && #[trigger] before.functional.stores(p, content);
                        lemma_listing_is_unique(p, path@, fs@);
                    }
                    assert(self.contents() =~= before.contents().insert((from@, content)));
                }
                r
            },
        }
    }

    fn get_entries(&self, from: &SyntaxValue) -> (r: Vec<LexiconEntry>) {
        match from {
            SyntaxValue::Item(k) => self.get_lexical_entries(*k),
            SyntaxValue::Features(fs) => self.get_functional_entries(fs),
        }
    }
}

/// The entries `all` as they are written; nothing if a key has no name.
pub fn write_entries<I: Interner>(names: &I, all: &Vec<(SyntaxValue, LexiconNode)>) -> (r: Option<
    String,
>)
    ensures
        name_view(r) == entries_text(names, all@),
{
    let mut lexical = String::new();
    let mut functional = String::new();
    let mut i: usize = 0;
    while i < all.len()
        invariant
            i <= all.len(),
            entry_lines(names, all@.take(i as int), true) == Some(lexical@),
            entry_lines(names, all@.take(i as int), false) == Some(functional@),
        decreases all.len() - i,
    {
        proof {
            assert(all@.take(i + 1).drop_last() =~= all@.take(i as int));
            assert(all@.take(i + 1).last() == all@[i as int]);
        }
        let from = all[i].0.to_string(names);
        let to = all[i].1.to_string(names);
        match (from, to) {
            (Some(from), Some(to)) => {
                match &all[i].0 {
                    SyntaxValue::Item(_) => write_entry(&mut lexical, &from, &to),
                    SyntaxValue::Features(_) => write_entry(&mut functional, &from, &to),
                }
            },
            _ => {
                proof {
                    lemma_entry_lines_fail(names, all@, i as int, true);
                }
                return None;
            },
        }
        i = i + 1;
    }
    assert(all@.take(i as int) =~= all@);
    let mut r = String::from_str("Lexical entries:\n");
    r.append(lexical.as_str());
    r.append("Functional:\n");
    r.append(functional.as_str());
    Some(r)
}

/// Appends to `out` the line of the entry from `from` to `to`.
fn write_entry(out: &mut String, from: &String, to: &String)
    ensures
        final(out)@ == old(out)@ + ("  "@ + from@ + " = "@ + to@ + "\n"@),
{
    out.append("  ");
    out.append(from.as_str());
    out.append(" = ");
    out.append(to.as_str());
    out.append("\n");
    assert(out@ =~= old(out)@ + ("  "@ + from@ + " = "@ + to@ + "\n"@));
}

} // verus!
