use super::entry::{LexiconEntry, LexiconEntryView};
use super::node::{LexiconNode, LexiconNodeView};
use crate::syntax::{Features, Key, SyntaxValue, SyntaxValueView};
use vstd::prelude::*;

verus! {

/// Whether the trigger `t` fires on the query `fs`: it has at least one
/// feature, and each of its pairs occurs identically in the query.
pub open spec fn fires(t: Features, fs: Features) -> bool {
    (exists|k: Key| t.contains_key(k)) && t.submap_of(fs)
}

/// The features of the query `fs` that the trigger `t` does not cover;
/// nothing if the trigger is the query itself.
pub open spec fn residue(fs: Features, t: Features) -> Option<Features> {
    if t == fs {
        None
    } else {
        Some(fs.remove_keys(t.dom()))
    }
}

/// Whether the list `r` holds an entry with the content `e`.
pub open spec fn offered(r: Seq<LexiconEntry>, e: LexiconEntryView) -> bool {
    exists|i: int| 0 <= i < r.len() && (#[trigger] r[i])@ == e
}

/// Whether no two entries of `r` have the same content.
pub open spec fn distinct_entries(r: Seq<LexiconEntry>) -> bool {
    forall|i: int, j: int| 0 <= i < j < r.len() ==> (#[trigger] r[i])@ != (#[trigger] r[j])@
}

/// A store of interpretations: of tokens, found by the token itself, and
/// of feature sets, found by every query that the stored trigger is a
/// subset of.
pub trait Lexicon: Sized {
    /// The invariant of the store.
    spec fn wf(&self) -> bool;

    /// What is stored: pairs of a trigger and a node.
    spec fn contents(&self) -> Set<(SyntaxValueView, LexiconNodeView)>;

    /// Stores `to` under `from`, unless it is stored there already; says
    /// whether it was added.
    fn add_entry(&mut self, from: SyntaxValue, to: LexiconNode) -> (r: bool)
        requires
            old(self).wf(),
        ensures
            final(self).wf(),
            r == !old(self).contents().contains((from@, to@)),
            final(self).contents() == old(self).contents().insert((from@, to@)),
    ;

    /// The entries that answer the query `from`, each once.
    fn get_entries(&self, from: &SyntaxValue) -> (r: Vec<LexiconEntry>)
        requires
            self.wf(),
        ensures
            forall|e: LexiconEntryView| #[trigger]
                offered(r@, e) <==> answers(self.contents(), from@, e),
            distinct_entries(r@),
    ;
}

/// Whether `entry` answers `query` in a lexicon that stores `contents`. A
/// token is answered by each node stored under it. A feature set is
/// answered, for each trigger that fires on it and each node stored under
/// that trigger, by the node together with the features that the trigger
/// does not cover.
pub open spec fn answers(
    contents: Set<(SyntaxValueView, LexiconNodeView)>,
    query: SyntaxValueView,
    entry: LexiconEntryView,
) -> bool {
    match query {
        SyntaxValueView::Item(_) => entry matches LexiconEntryView::Lexical(n) && contents.contains(
            (query, n),
        ),
        SyntaxValueView::Features(fs) => entry matches LexiconEntryView::Functional { to, project }
            && exists|t: Features| #[trigger]
            contents.contains((SyntaxValueView::Features(t), to)) && fires(t, fs) && project
                == residue(fs, t),
    }
}

/// Completeness of a query by features: every stored trigger with at least
/// one feature that is a subset of the query answers it, with the node
/// stored under it and the features of the query that it does not cover.
pub proof fn lemma_subset_query_complete(
    contents: Set<(SyntaxValueView, LexiconNodeView)>,
    trigger: Features,
    node: LexiconNodeView,
    query: Features,
)
    requires
        contents.contains((SyntaxValueView::Features(trigger), node)),
        fires(trigger, query),
    ensures
        answers(
            contents,
            SyntaxValueView::Features(query),
            LexiconEntryView::Functional { to: node, project: residue(query, trigger) },
        ),
{
}

/// Soundness of a query by features: what answers it was stored under a
/// trigger that is a subset of the query.
pub proof fn lemma_subset_query_sound(
    contents: Set<(SyntaxValueView, LexiconNodeView)>,
    query: Features,
    entry: LexiconEntryView,
)
    requires
        answers(contents, SyntaxValueView::Features(query), entry),
    ensures
        entry is Functional,
        exists|trigger: Features| #[trigger]
            contents.contains((SyntaxValueView::Features(trigger), entry->to)) && trigger.submap_of(
                query,
            ),
{
}

} // verus!
