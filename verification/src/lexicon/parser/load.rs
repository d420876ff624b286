use super::feature_topology::{FeatureTopology, TopologyView};
use super::notation::{words_view, Error, LexiconSource, Notation, NotationView};
use super::reading::{
    node_readings, nodes_view, parse_feature_set, parse_syntax_node, parse_word, sets_view,
    word_key, written_features, Reading, Substitution, SubstitutionTable,
};
use crate::interner::Interner;
use crate::lexicon::{Lexicon, LexiconNode, LexiconNodeView};
use crate::syntax::{Features, SyntaxValue, SyntaxValueView};
use std::collections::HashMap;
use vstd::prelude::*;

verus! {

/// An entry of a lexicon: a trigger with a node.
pub type Entry = (SyntaxValueView, LexiconNodeView);

/// What reading a source added, in order, and the word at which the
/// reading ended, if a word could not be read.
pub type Log = (Seq<Entry>, Option<Seq<char>>);

/// The log `first`, followed by `rest` unless `first` ended at a word.
pub open spec fn then(first: Log, rest: Log) -> Log {
    if first.1 is Some {
        first
    } else {
        (first.0 + rest.0, rest.1)
    }
}

/// The entries of the trigger `from` with each of the readings `tos`.
pub open spec fn entries_under(from: SyntaxValueView, tos: Seq<Reading<LexiconNodeView>>) -> Seq<Entry> {
    tos.map_values(|t: Reading<LexiconNodeView>| (from, t.0))
}

/// The content of a functional entry as it is written.
pub open spec fn functional_view(entry: (Vec<String>, Notation)) -> (Seq<Seq<char>>, NotationView) {
    (words_view(entry.0@), entry.1@)
}

/// The content of a lexical entry as it is written.
pub open spec fn lexical_view(entry: (String, Notation)) -> (Seq<char>, NotationView) {
    (entry.0@, entry.1@)
}

/// The content of a category with its values as they are written.
pub open spec fn category_view(entry: (String, Vec<String>)) -> (Seq<char>, Seq<Seq<char>>) {
    (entry.0@, words_view(entry.1@))
}

/// What a functional entry adds, for the readings `froms` of its trigger:
/// for each of them in turn, every reading of its node under the
/// substitutions that the reading of the trigger made.
pub open spec fn functional_log_from<I: Interner>(
    interner: &I,
    topology: TopologyView,
    froms: Seq<Reading<Features>>,
    notation: NotationView,
) -> Log
    decreases froms.len(),
{
    if froms.len() == 0 {
        (Seq::empty(), None)
    } else {
        match node_readings(interner, topology, notation, froms[0].1) {
            Err(w) => (Seq::empty(), Some(w)),
            Ok(tos) => then(
                (entries_under(SyntaxValueView::Features(froms[0].0), tos), None),
                functional_log_from(interner, topology, froms.drop_first(), notation),
            ),
        }
    }
}

/// What the functional entry `entry` adds.
pub open spec fn functional_log<I: Interner>(
    interner: &I,
    topology: TopologyView,
    entry: (Seq<Seq<char>>, NotationView),
) -> Log {
    match written_features(interner, topology, entry.0, Substitution::empty()) {
        Err(w) => (Seq::empty(), Some(w)),
        Ok(froms) => functional_log_from(interner, topology, froms, entry.1),
    }
}

/// What the functional entries `entries` add, one after the other.
pub open spec fn functional_section_log<I: Interner>(
    interner: &I,
    topology: TopologyView,
    entries: Seq<(Vec<String>, Notation)>,
) -> Log
    decreases entries.len(),
{
    if entries.len() == 0 {
        (Seq::empty(), None)
    } else {
        then(
            functional_log(interner, topology, functional_view(entries[0])),
            functional_section_log(interner, topology, entries.drop_first()),
        )
    }
}

/// What the lexical entry `entry` adds: every reading of its node, under
/// its token.
pub open spec fn lexical_log<I: Interner>(
    interner: &I,
    topology: TopologyView,
    entry: (Seq<char>, NotationView),
) -> Log {
    match word_key(interner, entry.0) {
        Err(w) => (Seq::empty(), Some(w)),
        Ok(token) => match node_readings(interner, topology, entry.1, Substitution::empty()) {
            Err(w) => (Seq::empty(), Some(w)),
            Ok(tos) => (entries_under(SyntaxValueView::Item(token), tos), None),
        },
    }
}

/// What the lexical entries `entries` add, one after the other.
pub open spec fn lexical_section_log<I: Interner>(
    interner: &I,
    topology: TopologyView,
    entries: Seq<(String, Notation)>,
) -> Log
    decreases entries.len(),
{
    if entries.len() == 0 {
        (Seq::empty(), None)
    } else {
        then(
            lexical_log(interner, topology, lexical_view(entries[0])),
            lexical_section_log(interner, topology, entries.drop_first()),
        )
    }
}

/// The topology `topology` with the values `values` of `category`, up to
/// the first that cannot be read.
pub open spec fn with_values<I: Interner>(
    interner: &I,
    topology: TopologyView,
    category: crate::syntax::Key,
    values: Seq<Seq<char>>,
) -> (TopologyView, Option<Seq<char>>)
    decreases values.len(),
{
    if values.len() == 0 {
        (topology, None)
    } else {
        match word_key(interner, values[0]) {
            Err(w) => (topology, Some(w)),
            Ok(value) => with_values(
                interner,
                topology.insert(category, value),
                category,
                values.drop_first(),
            ),
        }
    }
}

/// The topology `topology` with the categories `entries`, up to the first
/// word that cannot be read.
pub open spec fn with_categories<I: Interner>(
    interner: &I,
    topology: TopologyView,
    entries: Seq<(String, Vec<String>)>,
) -> (TopologyView, Option<Seq<char>>)
    decreases entries.len(),
{
    if entries.len() == 0 {
        (topology, None)
    } else {
        match word_key(interner, category_view(entries[0]).0) {
            Err(w) => (topology, Some(w)),
            Ok(category) => {
                let (next, failure) = with_values(
                    interner,
                    topology,
                    category,
                    category_view(entries[0]).1,
                );
                if failure is Some {
                    (next, failure)
                } else {
                    with_categories(interner, next, entries.drop_first())
                }
            },
        }
    }
}

/// What the source `source` adds to a lexicon: the categories are read
/// first, then the functional entries, then the lexical ones.
pub open spec fn source_log<I: Interner>(interner: &I, source: LexiconSource) -> Log {
    let (topology, failure) = with_categories(interner, TopologyView::empty(), source.features@);
    if failure is Some {
        (Seq::empty(), failure)
    } else {
        then(
            functional_section_log(interner, topology, source.functional@),
            lexical_section_log(interner, topology, source.lexical@),
        )
    }
}

/// Whether the result `r` and the lexicon contents `after` are what the
/// log `log` makes of the contents `before`.
pub open spec fn logged(
    r: Result<(), Error>,
    before: Set<Entry>,
    after: Set<Entry>,
    log: Log,
) -> bool {
    &&& after == before.union(log.0.to_set())
    &&& match log.1 {
        Some(w) => r is Err && r->Err_0->CannotParse_0@ == w,
        None => r is Ok,
    }
}

/// Adds to `lexicon`, under `from`, each of the readings `tos`.
fn add_entries<L: Lexicon>(lexicon: &mut L, from: &SyntaxValue, tos: Vec<(LexiconNode, SubstitutionTable)>)
    requires
        old(lexicon).wf(),
    ensures
        final(lexicon).wf(),
        final(lexicon).contents() == old(lexicon).contents().union(
            entries_under(from@, nodes_view(tos@)).to_set(),
        ),
{
    let ghost all = entries_under(from@, nodes_view(tos@));
    let mut i: usize = 0;
    assert(all.take(0).to_set() =~= Set::<Entry>::empty());
    assert(lexicon.contents().union(Set::<Entry>::empty()) =~= lexicon.contents());
    while i < tos.len()
        invariant
            i <= tos.len(),
            lexicon.wf(),
            all == entries_under(from@, nodes_view(tos@)),
            lexicon.contents() == old(lexicon).contents().union(all.take(i as int).to_set()),
        decreases tos.len() - i,
    {
        lexicon.add_entry(from.clone(), tos[i].0.clone());
        proof {
            assert(all[i as int] == (from@, tos@[i as int].0@));
            assert(all.take(i + 1) =~= all.take(i as int).push(all[i as int]));
            lemma_push_to_set(all.take(i as int), all[i as int]);
            assert(old(lexicon).contents().union(all.take(i as int).to_set()).insert(all[i as int])
                =~= old(lexicon).contents().union(all.take(i + 1).to_set()));
        }
        i = i + 1;
    }
    assert(all.take(i as int) =~= all);
}

/// The elements of a sequence with one more are those of the sequence and
/// the one.
pub proof fn lemma_push_to_set(s: Seq<Entry>, e: Entry)
    ensures
        s.push(e).to_set() == s.to_set().insert(e),
{
    assert forall|x: Entry| s.push(e).to_set().contains(x) <==> s.to_set().insert(e).contains(x) by {
        if s.push(e).contains(x) {
            let i = choose|i: int| 0 <= i < s.push(e).len() && s.push(e)[i] == x;
            if i < s.len() {
                assert(s[i] == x);
            }
        }
        if s.contains(x) {
            let i = choose|i: int| 0 <= i < s.len() && s[i] == x;
            assert(s.push(e)[i] == x);
        }
        assert(s.push(e)[s.len() as int] == e);
    }
    assert(s.push(e).to_set() =~= s.to_set().insert(e));
}

/// The elements of two sequences put together are those of the one and
/// those of the other.
pub proof fn lemma_add_to_set(a: Seq<Entry>, b: Seq<Entry>)
    ensures
        (a + b).to_set() == a.to_set().union(b.to_set()),
{
    assert forall|x: Entry| (a + b).to_set().contains(x) <==> a.to_set().union(b.to_set()).contains(
        x,
    ) by {
        if (a + b).contains(x) {
            let i = choose|i: int| 0 <= i < (a + b).len() && (a + b)[i] == x;
            if i < a.len() {
                assert(a[i] == x);
            } else {
                assert(b[i - a.len()] == x);
            }
        }
        if a.contains(x) {
            let i = choose|i: int| 0 <= i < a.len() && a[i] == x;
            assert((a + b)[i] == x);
        }
        if b.contains(x) {
            let i = choose|i: int| 0 <= i < b.len() && b[i] == x;
            assert((a + b)[i + a.len()] == x);
        }
    }
    assert((a + b).to_set() =~= a.to_set().union(b.to_set()));
}

/// Reading on after the log `first` was made of `before`: if the rest of
/// the reading makes `rest` of what was reached, the whole makes
/// `then(first, rest)` of `before`.
pub proof fn lemma_then(before: Set<Entry>, middle: Set<Entry>, after: Set<Entry>, first: Log, rest: Log)
    requires
        first.1 is None,
        middle == before.union(first.0.to_set()),
        after == middle.union(rest.0.to_set()),
    ensures
        after == before.union(then(first, rest).0.to_set()),
{
    lemma_add_to_set(first.0, rest.0);
    assert(after =~= before.union(then(first, rest).0.to_set()));
}

/// Reads the functional entry `entry` into `lexicon`.
#[verifier::loop_isolation(false)]
fn parse_functional_entry<L: Lexicon, I: Interner>(
    lexicon: &mut L,
    interner: &I,
    entry: &(Vec<String>, Notation),
    ft: &FeatureTopology,
) -> (r: Result<(), Error>)
    requires
        old(lexicon).wf(),
    ensures
        final(lexicon).wf(),
        logged(
            r,
            old(lexicon).contents(),
            final(lexicon).contents(),
            functional_log(interner, ft@, functional_view(*entry)),
        ),
{
    let ghost start = lexicon.contents();
    assert(start.union(Seq::<Entry>::empty().to_set()) =~= start);
    let froms = parse_feature_set(interner, &entry.0, ft, HashMap::new())?;
    let ghost all = sets_view(froms@);
    let ghost goal = functional_log_from(interner, ft@, all, entry.1@);
    let ghost mut done: Seq<Entry> = Seq::empty();
    let mut i: usize = 0;
    assert(all.skip(0) =~= all);
    while i < froms.len()
        invariant
            i <= froms.len(),
            lexicon.wf(),
            lexicon.contents() == start.union(done.to_set()),
            goal == then((done, None), functional_log_from(interner, ft@, all.skip(i as int), entry.1@)),
        decreases froms.len() - i,
    {
        assert(all.skip(i as int)[0] == all[i as int]);
        assert(all.skip(i as int).drop_first() =~= all.skip(i + 1));
        let ghost rest = functional_log_from(interner, ft@, all.skip(i + 1), entry.1@);
        assert(done + Seq::<Entry>::empty() =~= done);
        let tos = parse_syntax_node(interner, &entry.1, ft, froms[i].1.clone())?;
        let from = SyntaxValue::Features(froms[i].0.clone());
        let ghost here = entries_under(from@, nodes_view(tos@));
        add_entries(lexicon, &from, tos);
        proof {
            lemma_add_to_set(done, here);
            assert(lexicon.contents() =~= start.union((done + here).to_set()));
            assert((done + here) + rest.0 =~= done + (here + rest.0));
            done = done + here;
        }
        i = i + 1;
    }
    assert(all.skip(i as int).len() == 0);
    assert(done + Seq::<Entry>::empty() =~= done);
    Ok(())
}

/// Reads the lexical entry `entry` into `lexicon`.
fn parse_lexical_entry<L: Lexicon, I: Interner>(
    lexicon: &mut L,
    interner: &I,
    entry: &(String, Notation),
    ft: &FeatureTopology,
) -> (r: Result<(), Error>)
    requires
        old(lexicon).wf(),
    ensures
        final(lexicon).wf(),
        logged(
            r,
            old(lexicon).contents(),
            final(lexicon).contents(),
            lexical_log(interner, ft@, lexical_view(*entry)),
        ),
{
    assert(lexicon.contents().union(Seq::<Entry>::empty().to_set()) =~= lexicon.contents());
    let from = SyntaxValue::Item(parse_word(interner, &entry.0)?);
    let tos = parse_syntax_node(interner, &entry.1, ft, HashMap::new())?;
    add_entries(lexicon, &from, tos);
    Ok(())
}

/// Reads the functional entries `entries` into `lexicon`, one after the
/// other.
#[verifier::loop_isolation(false)]
pub fn parse_functional_entries<L: Lexicon, I: Interner>(
    lexicon: &mut L,
    interner: &I,
    entries: &Vec<(Vec<String>, Notation)>,
    ft: &FeatureTopology,
) -> (r: Result<(), Error>)
    requires
        old(lexicon).wf(),
    ensures
        final(lexicon).wf(),
        logged(
            r,
            old(lexicon).contents(),
            final(lexicon).contents(),
            functional_section_log(interner, ft@, entries@),
        ),
{
    let ghost start = lexicon.contents();
    let ghost goal = functional_section_log(interner, ft@, entries@);
    let ghost mut done: Seq<Entry> = Seq::empty();
    assert(start.union(done.to_set()) =~= start);
    assert(entries@.skip(0) =~= entries@);
    let mut i: usize = 0;
    while i < entries.len()
        invariant
            i <= entries.len(),
            lexicon.wf(),
            lexicon.contents() == start.union(done.to_set()),
            goal == then((done, None), functional_section_log(interner, ft@, entries@.skip(i as int))),
        decreases entries.len() - i,
    {
        assert(entries@.skip(i as int)[0] == entries@[i as int]);
        assert(entries@.skip(i as int).drop_first() =~= entries@.skip(i + 1));
        let ghost here = functional_log(interner, ft@, functional_view(entries@[i as int]));
        let ghost rest = functional_section_log(interner, ft@, entries@.skip(i + 1));
        let ghost middle = lexicon.contents();
        let r = parse_functional_entry(lexicon, interner, &entries[i], ft);
        proof {
            lemma_add_to_set(done, here.0);
            assert(lexicon.contents() =~= start.union((done + here.0).to_set()));
            assert((done + here.0) + rest.0 =~= done + (here.0 + rest.0));
        }
        match r {
            Ok(()) => {},
            Err(e) => {
                return Err(e);
            },
        }
        proof {
            done = done + here.0;
        }
        i = i + 1;
    }
    assert(entries@.skip(i as int).len() == 0);
    assert(done + Seq::<Entry>::empty() =~= done);
    Ok(())
}

/// Reads the lexical entries `entries` into `lexicon`, one after the
/// other.
#[verifier::loop_isolation(false)]
pub fn parse_lexical_entries<L: Lexicon, I: Interner>(
    lexicon: &mut L,
    interner: &I,
    entries: &Vec<(String, Notation)>,
    ft: &FeatureTopology,
) -> (r: Result<(), Error>)
    requires
        old(lexicon).wf(),
    ensures
        final(lexicon).wf(),
        logged(
            r,
            old(lexicon).contents(),
            final(lexicon).contents(),
            lexical_section_log(interner, ft@, entries@),
        ),
{
    let ghost start = lexicon.contents();
    let ghost goal = lexical_section_log(interner, ft@, entries@);
    let ghost mut done: Seq<Entry> = Seq::empty();
    assert(start.union(done.to_set()) =~= start);
    assert(entries@.skip(0) =~= entries@);
    let mut i: usize = 0;
    while i < entries.len()
        invariant
            i <= entries.len(),
            lexicon.wf(),
            lexicon.contents() == start.union(done.to_set()),
            goal == then((done, None), lexical_section_log(interner, ft@, entries@.skip(i as int))),
        decreases entries.len() - i,
    {
        assert(entries@.skip(i as int)[0] == entries@[i as int]);
        assert(entries@.skip(i as int).drop_first() =~= entries@.skip(i + 1));
        let ghost here = lexical_log(interner, ft@, lexical_view(entries@[i as int]));
        let ghost rest = lexical_section_log(interner, ft@, entries@.skip(i + 1));
        let r = parse_lexical_entry(lexicon, interner, &entries[i], ft);
        proof {
            lemma_add_to_set(done, here.0);
            assert(lexicon.contents() =~= start.union((done + here.0).to_set()));
            assert((done + here.0) + rest.0 =~= done + (here.0 + rest.0));
        }
        match r {
            Ok(()) => {},
            Err(e) => {
                return Err(e);
            },
        }
        proof {
            done = done + here.0;
        }
        i = i + 1;
    }
    assert(entries@.skip(i as int).len() == 0);
    assert(done + Seq::<Entry>::empty() =~= done);
    Ok(())
}

/// Reads the categories `entries`, with their values, into the topology
/// `ft`.
#[verifier::loop_isolation(false)]
pub fn parse_feature_entries<I: Interner>(
    ft: &mut FeatureTopology,
    interner: &I,
    entries: &Vec<(String, Vec<String>)>,
) -> (r: Result<(), Error>)
    ensures
        final(ft)@ == with_categories(interner, old(ft)@, entries@).0,
        match with_categories(interner, old(ft)@, entries@).1 {
            Some(w) => r is Err && r->Err_0->CannotParse_0@ == w,
            None => r is Ok,
        },
{
    let ghost goal = with_categories(interner, ft@, entries@);
    assert(entries@.skip(0) =~= entries@);
    let mut i: usize = 0;
    while i < entries.len()
        invariant
            i <= entries.len(),
            goal == with_categories(interner, ft@, entries@.skip(i as int)),
        decreases entries.len() - i,
    {
        assert(entries@.skip(i as int)[0] == entries@[i as int]);
        assert(entries@.skip(i as int).drop_first() =~= entries@.skip(i + 1));
        let category = parse_word(interner, &entries[i].0)?;
        let values = &entries[i].1;
        let ghost all = words_view(values@);
        let ghost inner = with_values(interner, ft@, category, all);
        assert(all.skip(0) =~= all);
        let mut j: usize = 0;
        while j < values.len()
            invariant
                j <= values.len(),
                inner == with_values(interner, ft@, category, all.skip(j as int)),
            decreases values.len() - j,
        {
            assert(all.skip(j as int)[0] == values@[j as int]@);
            assert(all.skip(j as int).drop_first() =~= all.skip(j + 1));
            let value = parse_word(interner, &values[j])?;
            ft.insert(category, value);
            j = j + 1;
        }
        assert(all.skip(j as int).len() == 0);
        i = i + 1;
    }
    assert(entries@.skip(i as int).len() == 0);
    Ok(())
}

/// Reads the source `source` into `lexicon`: the categories first, then
/// the functional entries, then the lexical ones. The first word of which
/// the interner makes no key ends the reading; what was read before it
/// stays in the lexicon.
pub fn parse_sections<L: Lexicon, I: Interner>(lexicon: &mut L, interner: &I, source: &LexiconSource) -> (r:
    Result<(), Error>)
    requires
        old(lexicon).wf(),
    ensures
        final(lexicon).wf(),
        logged(r, old(lexicon).contents(), final(lexicon).contents(), source_log(interner, *source)),
{
    let ghost start = lexicon.contents();
    assert(start.union(Seq::<Entry>::empty().to_set()) =~= start);
    let mut feature_topology = FeatureTopology::new();
    parse_feature_entries(&mut feature_topology, interner, &source.features)?;
    let ghost first = functional_section_log(interner, feature_topology@, source.functional@);
    let ghost rest = lexical_section_log(interner, feature_topology@, source.lexical@);
    parse_functional_entries(lexicon, interner, &source.functional, &feature_topology)?;
    let ghost middle = lexicon.contents();
    let r = parse_lexical_entries(lexicon, interner, &source.lexical, &feature_topology);
    proof {
        lemma_then(start, middle, lexicon.contents(), first, rest);
    }
    r
}

} // verus!
