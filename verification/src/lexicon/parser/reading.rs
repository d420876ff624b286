use super::feature_topology::{FeatureTopology, TopologyView};
use super::notation::{words_view, Error, Notation, NotationView};
use crate::interner::Interner;
use crate::lexicon::{LexiconNode, LexiconNodeView};
use crate::syntax::{FeatureSet, Features, Key, SyntaxValue, SyntaxValueView};
use crate::trie::Label;
use std::collections::HashMap;
use vstd::prelude::*;

verus! {

/// What each word read so far stands for: a word that names a category
/// stands for one value of it throughout an entry.
pub type SubstitutionTable = HashMap<Key, Label>;

/// The mathematical content of a [`SubstitutionTable`].
pub type Substitution = Map<Key, Label>;

/// One reading of something written, with the substitutions made for it.
pub type Reading<T> = (T, Substitution);

/// The readings of a word, or the word that could not be read.
pub type Readings<T> = Result<Seq<Reading<T>>, Seq<char>>;

/// The key of the word `word`.
pub open spec fn word_key<I: Interner>(interner: &I, word: Seq<char>) -> Result<Key, Seq<char>> {
    match interner.key_of(word) {
        Some(key) => Ok(key),
        None => Err(word),
    }
}

/// The readings of the feature `k`. A word read before stands for what it
/// stood for then. The name of a category has one reading for each value
/// of the category, and stands for that value from then on. The name of a
/// value stands for the value bound to its category; any other word is a
/// bare marker.
pub open spec fn feature_readings(topology: TopologyView, k: Key, subst: Substitution) -> Seq<
    Reading<Label>,
> {
    if subst.contains_key(k) {
        seq![(subst[k], subst)]
    } else if topology.categories.contains_key(k) {
        topology.categories[k].map_values(|val: Key| ((k, Some(val)), subst.insert(k, (k, Some(val)))))
    } else {
        let sub = if topology.values.contains_key(k) {
            (topology.values[k], Some(k))
        } else {
            (k, None::<Key>)
        };
        seq![(sub, subst.insert(k, sub))]
    }
}

/// The reading `r` of a feature, added to the feature set `fset`.
pub open spec fn with_feature(fset: Features, r: Reading<Label>) -> Reading<Features> {
    (fset.insert(r.0.0, r.0.1), r.1)
}

/// The readings `res` of a feature set, each extended by every reading of
/// the word `word`, the last of `res` first. If there is nothing to
/// extend, the word is not read.
pub open spec fn extend_readings<I: Interner>(
    interner: &I,
    topology: TopologyView,
    word: Seq<char>,
    res: Seq<Reading<Features>>,
) -> Readings<Features>
    decreases res.len(),
{
    if res.len() == 0 {
        Ok(Seq::empty())
    } else {
        match word_key(interner, word) {
            Err(w) => Err(w),
            Ok(k) => match extend_readings(interner, topology, word, res.drop_last()) {
                Err(w) => Err(w),
                Ok(rest) => Ok(
                    feature_readings(topology, k, res.last().1).map_values(
                        |r: Reading<Label>| with_feature(res.last().0, r),
                    ) + rest,
                ),
            },
        }
    }
}

/// The readings `start` of a feature set, extended word by word with the
/// words `words`.
pub open spec fn feature_set_readings<I: Interner>(
    interner: &I,
    topology: TopologyView,
    words: Seq<Seq<char>>,
    start: Seq<Reading<Features>>,
) -> Readings<Features>
    decreases words.len(),
{
    if words.len() == 0 {
        Ok(start)
    } else {
        match extend_readings(interner, topology, words[0], start) {
            Err(w) => Err(w),
            Ok(next) => feature_set_readings(interner, topology, words.drop_first(), next),
        }
    }
}

/// The readings of the feature set written with the words `words`, after
/// the substitutions `subst`.
pub open spec fn written_features<I: Interner>(
    interner: &I,
    topology: TopologyView,
    words: Seq<Seq<char>>,
    subst: Substitution,
) -> Readings<Features> {
    feature_set_readings(interner, topology, words, seq![(Features::empty(), subst)])
}

/// The functions from the node `from`, read with `subst`, to each reading
/// of the feature set written with the words `to`.
pub open spec fn lambdas_from<I: Interner>(
    interner: &I,
    topology: TopologyView,
    from: LexiconNodeView,
    subst: Substitution,
    to: Seq<Seq<char>>,
    project: bool,
) -> Readings<LexiconNodeView> {
    match written_features(interner, topology, to, subst) {
        Err(w) => Err(w),
        Ok(rs) => Ok(
            rs.map_values(
                |r: Reading<Features>|
                    (LexiconNodeView::Lambda { from: Box::new(from), to: r.0, project }, r.1),
            ),
        ),
    }
}

/// The functions from each of the readings `froms`, in order, to each
/// reading of the feature set written with the words `to`.
pub open spec fn lambda_readings<I: Interner>(
    interner: &I,
    topology: TopologyView,
    froms: Seq<Reading<LexiconNodeView>>,
    to: Seq<Seq<char>>,
    project: bool,
) -> Readings<LexiconNodeView>
    decreases froms.len(),
{
    if froms.len() == 0 {
        Ok(Seq::empty())
    } else {
        match lambdas_from(interner, topology, froms[0].0, froms[0].1, to, project) {
            Err(w) => Err(w),
            Ok(here) => match lambda_readings(interner, topology, froms.drop_first(), to, project) {
                Err(w) => Err(w),
                Ok(rest) => Ok(here + rest),
            },
        }
    }
}

/// The readings of the node written as `notation`, after the
/// substitutions `subst`.
pub open spec fn node_readings<I: Interner>(
    interner: &I,
    topology: TopologyView,
    notation: NotationView,
    subst: Substitution,
) -> Readings<LexiconNodeView>
    decreases notation,
{
    match notation {
        NotationView::FeatureSet(words) => match written_features(interner, topology, words, subst) {
            Err(w) => Err(w),
            Ok(rs) => Ok(
                rs.map_values(
                    |r: Reading<Features>|
                        (LexiconNodeView::Value { value: SyntaxValueView::Features(r.0) }, r.1),
                ),
            ),
        },
        NotationView::Moved(words) => match written_features(interner, topology, words, subst) {
            Err(w) => Err(w),
            Ok(rs) => Ok(
                rs.map_values(|r: Reading<Features>| (LexiconNodeView::Moved { from: r.0 }, r.1)),
            ),
        },
        NotationView::Lambda { from, to, project } => match node_readings(
            interner,
            topology,
            *from,
            subst,
        ) {
            Err(w) => Err(w),
            Ok(froms) => lambda_readings(interner, topology, froms, to, project),
        },
    }
}

/// The content of a list of readings of features.
pub open spec fn labels_view(v: Seq<(Label, SubstitutionTable)>) -> Seq<Reading<Label>> {
    v.map_values(|x: (Label, SubstitutionTable)| (x.0, x.1@))
}

/// The content of a list of readings of feature sets.
pub open spec fn sets_view(v: Seq<(FeatureSet, SubstitutionTable)>) -> Seq<Reading<Features>> {
    v.map_values(|x: (FeatureSet, SubstitutionTable)| (x.0@, x.1@))
}

/// The content of a list of readings of nodes.
pub open spec fn nodes_view(v: Seq<(LexiconNode, SubstitutionTable)>) -> Seq<Reading<LexiconNodeView>> {
    v.map_values(|x: (LexiconNode, SubstitutionTable)| (x.0@, x.1@))
}

/// Whether `r` is what reading gave: the readings `expected`, or an error
/// with the word that could not be read.
pub open spec fn read_as<T, V>(r: Result<T, Error>, view: spec_fn(T) -> V, expected: Result<V, Seq<char>>) -> bool {
    match expected {
        Ok(v) => r is Ok && view(r->Ok_0) == v,
        Err(w) => r is Err && r->Err_0->CannotParse_0@ == w,
    }
}

/// The key of the word `word`.
pub fn parse_word<I: Interner>(interner: &I, word: &String) -> (r: Result<Key, Error>)
    ensures
        read_as(r, |k: Key| k, word_key(interner, word@)),
{
    match interner.intern(word.as_str()) {
        Some(key) => Ok(key),
        None => Err(Error::CannotParse(word.clone())),
    }
}

/// The readings of the feature written as `word`.
pub fn parse_feature<I: Interner>(
    interner: &I,
    word: &String,
    ft: &FeatureTopology,
    subst: SubstitutionTable,
) -> (r: Result<Vec<(Label, SubstitutionTable)>, Error>)
    ensures
        read_as(
            r,
            |v: Vec<(Label, SubstitutionTable)>| labels_view(v@),
            match word_key(interner, word@) {
                Ok(k) => Ok(feature_readings(ft@, k, subst@)),
                Err(w) => Err(w),
            },
        ),
{
    broadcast use vstd::std_specs::hash::group_hash_axioms;

    let k = parse_word(interner, word)?;
    let mut res: Vec<(Label, SubstitutionTable)> = Vec::new();
    let known = match subst.get(&k) {
        Some(sub) => Some(*sub),
        None => None,
    };
    match known {
        Some(sub) => {
            res.push((sub, subst));
            assert(labels_view(res@) =~= feature_readings(ft@, k, subst@));
        },
        None => {
            match ft.get_from_category(&k) {
                Some(vals) => {
                    let mut i: usize = 0;
                    while i < vals.len()
                        invariant
                            i <= vals.len(),
                            res@.len() == i,
                            forall|j: int|
                                0 <= j < i ==> (#[trigger] res@[j]).0 == (k, Some(vals@[j]))
                                    && res@[j].1@ == subst@.insert(k, (k, Some(vals@[j]))),
                        decreases vals.len() - i,
                    {
                        let mut next = subst.clone();
                        let sub = (k, Some(vals[i]));
                        next.insert(k, sub);
                        res.push((sub, next));
                        i = i + 1;
                    }
                    assert(labels_view(res@) =~= feature_readings(ft@, k, subst@));
                },
                None => {
                    let sub = match ft.get_from_value(&k) {
                        Some(cat) => (cat, Some(k)),
                        None => (k, None),
                    };
                    let mut next = subst.clone();
                    next.insert(k, sub);
                    res.push((sub, next));
                    assert(labels_view(res@) =~= feature_readings(ft@, k, subst@));
                },
            }
        },
    }
    Ok(res)
}

/// The readings of the feature set written with the words `words`.
#[verifier::loop_isolation(false)]
pub fn parse_feature_set<I: Interner>(
    interner: &I,
    words: &Vec<String>,
    ft: &FeatureTopology,
    subst: SubstitutionTable,
) -> (r: Result<Vec<(FeatureSet, SubstitutionTable)>, Error>)
    ensures
        read_as(
            r,
            |v: Vec<(FeatureSet, SubstitutionTable)>| sets_view(v@),
            written_features(interner, ft@, words_view(words@), subst@),
        ),
{
    let ghost all = words_view(words@);
    let ghost goal = written_features(interner, ft@, all, subst@);
    let mut res: Vec<(FeatureSet, SubstitutionTable)> = Vec::new();
    res.push((FeatureSet::new(), subst));
    assert(sets_view(res@) =~= seq![(Features::empty(), subst@)]);
    let mut i: usize = 0;
    assert(all.skip(0) =~= all);
    while i < words.len()
        invariant
            i <= words.len(),
            all == words_view(words@),
            goal == feature_set_readings(interner, ft@, all.skip(i as int), sets_view(res@)),
        decreases words.len() - i,
    {
        let ghost word = all[i as int];
        let ghost start = sets_view(res@);
        let ghost step = extend_readings(interner, ft@, word, start);
        assert(all.skip(i as int)[0] == word);
        assert(all.skip(i as int).drop_first() =~= all.skip(i + 1));
        let mut new_res: Vec<(FeatureSet, SubstitutionTable)> = Vec::new();
        assert(sets_view(new_res@) =~= Seq::<Reading<Features>>::empty());
        while res.len() > 0
            invariant
                step == (match extend_readings(interner, ft@, word, sets_view(res@)) {
                    Ok(rest) => Ok::<Seq<Reading<Features>>, Seq<char>>(sets_view(new_res@) + rest),
                    Err(w) => Err(w),
                }),
            decreases res@.len(),
        {
            let ghost before = sets_view(res@);
            let ghost done = sets_view(new_res@);
            let top = res.pop();
            assert(sets_view(res@) =~= before.drop_last());
            if let Some((fset, subst)) = top {
                assert(before.last() == (fset@, subst@));
                let feature_parses = parse_feature(interner, &words[i], ft, subst)?;
                let ghost k = word_key(interner, word)->Ok_0;
                let ghost here = feature_readings(ft@, k, before.last().1).map_values(
                    |r: Reading<Label>| with_feature(before.last().0, r),
                );
                let mut j: usize = 0;
                while j < feature_parses.len()
                    invariant
                        j <= feature_parses.len(),
                        sets_view(new_res@) =~= done + here.take(j as int),
                    decreases feature_parses.len() - j,
                {
                    let mut fset = fset.clone();
                    let parse = &feature_parses[j];
                    fset.insert(parse.0.0, parse.0.1);
                    let ghost old_view = sets_view(new_res@);
                    new_res.push((fset, parse.1.clone()));
                    proof {
                        assert(labels_view(feature_parses@)[j as int] == (parse.0, parse.1@));
                        assert(here[j as int] == with_feature(
                            before.last().0,
                            labels_view(feature_parses@)[j as int],
                        ));
                        assert(here.take(j + 1) =~= here.take(j as int).push(here[j as int]));
                        assert(sets_view(new_res@) =~= old_view.push(here[j as int]));
                    }
                    j = j + 1;
                }
                proof {
                    assert(here.take(j as int) =~= here);
                    match extend_readings(interner, ft@, word, before.drop_last()) {
                        Ok(rest) => {
                            assert((done + here) + rest =~= done + (here + rest));
                        },
                        Err(_) => {},
                    }
                }
            }
        }
        assert(sets_view(new_res@) + Seq::<Reading<Features>>::empty() =~= sets_view(new_res@));
        res = new_res;
        i = i + 1;
    }
    assert(all.skip(i as int).len() == 0);
    Ok(res)
}

/// The readings of the node written as `notation`.
pub fn parse_syntax_node<I: Interner>(
    interner: &I,
    notation: &Notation,
    ft: &FeatureTopology,
    subst: SubstitutionTable,
) -> (r: Result<Vec<(LexiconNode, SubstitutionTable)>, Error>)
    ensures
        read_as(
            r,
            |v: Vec<(LexiconNode, SubstitutionTable)>| nodes_view(v@),
            node_readings(interner, ft@, notation@, subst@),
        ),
    decreases notation, 0nat,
{
    match notation {
        Notation::Lambda { from, to, project } => parse_lambda(interner, &**from, to, *project, ft, subst),
        Notation::Moved(words) => parse_moved(interner, words, ft, subst),
        Notation::FeatureSet(words) => {
            let sets = parse_feature_set(interner, words, ft, subst)?;
            let ghost expected = sets_view(sets@).map_values(
                |r: Reading<Features>|
                    (LexiconNodeView::Value { value: SyntaxValueView::Features(r.0) }, r.1),
            );
            let mut res: Vec<(LexiconNode, SubstitutionTable)> = Vec::new();
            let mut i: usize = 0;
            while i < sets.len()
                invariant
                    i <= sets.len(),
                    res@.len() == i,
                    forall|j: int|
                        0 <= j < i ==> (#[trigger] res@[j]).0@ == (LexiconNodeView::Value {
                            value: SyntaxValueView::Features(sets@[j].0@),
                        }) && res@[j].1@ == sets@[j].1@,
                decreases sets.len() - i,
            {
                res.push(
                    (
                        LexiconNode::Value { value: SyntaxValue::Features(sets[i].0.clone()) },
                        sets[i].1.clone(),
                    ),
                );
                i = i + 1;
            }
            assert(nodes_view(res@) =~= expected);
            Ok(res)
        },
    }
}

/// The readings of the moved feature set written with the words `words`.
pub fn parse_moved<I: Interner>(
    interner: &I,
    words: &Vec<String>,
    ft: &FeatureTopology,
    subst: SubstitutionTable,
) -> (r: Result<Vec<(LexiconNode, SubstitutionTable)>, Error>)
    ensures
        read_as(
            r,
            |v: Vec<(LexiconNode, SubstitutionTable)>| nodes_view(v@),
            node_readings(interner, ft@, NotationView::Moved(words_view(words@)), subst@),
        ),
{
    let sets = parse_feature_set(interner, words, ft, subst)?;
    let ghost expected = sets_view(sets@).map_values(
        |r: Reading<Features>| (LexiconNodeView::Moved { from: r.0 }, r.1),
    );
    let mut res: Vec<(LexiconNode, SubstitutionTable)> = Vec::new();
    let mut i: usize = 0;
    while i < sets.len()
        invariant
            i <= sets.len(),
            res@.len() == i,
            forall|j: int|
                0 <= j < i ==> (#[trigger] res@[j]).0@ == (LexiconNodeView::Moved {
                    from: sets@[j].0@,
                }) && res@[j].1@ == sets@[j].1@,
        decreases sets.len() - i,
    {
        res.push((LexiconNode::Moved { from: sets[i].0.clone() }, sets[i].1.clone()));
        i = i + 1;
    }
    assert(nodes_view(res@) =~= expected);
    Ok(res)
}

/// The readings of the function written as `from`, a direction and `to`.
#[verifier::loop_isolation(false)]
pub fn parse_lambda<I: Interner>(
    interner: &I,
    from: &Notation,
    to: &Vec<String>,
    project: bool,
    ft: &FeatureTopology,
    subst: SubstitutionTable,
) -> (r: Result<Vec<(LexiconNode, SubstitutionTable)>, Error>)
    ensures
        read_as(
            r,
            |v: Vec<(LexiconNode, SubstitutionTable)>| nodes_view(v@),
            match node_readings(interner, ft@, from@, subst@) {
                Err(w) => Err(w),
                Ok(froms) => lambda_readings(interner, ft@, froms, words_view(to@), project),
            },
        ),
    decreases from, 1nat,
{
    let froms = parse_syntax_node(interner, from, ft, subst)?;
    let ghost all = nodes_view(froms@);
    let ghost goal = lambda_readings(interner, ft@, all, words_view(to@), project);
    let mut res: Vec<(LexiconNode, SubstitutionTable)> = Vec::new();
    let mut i: usize = 0;
    assert(all.skip(0) =~= all);
    assert(nodes_view(res@) =~= Seq::<Reading<LexiconNodeView>>::empty());
    while i < froms.len()
        invariant
            i <= froms.len(),
            all == nodes_view(froms@),
            goal == (match lambda_readings(interner, ft@, all.skip(i as int), words_view(to@), project) {
                Ok(rest) => Ok::<Seq<Reading<LexiconNodeView>>, Seq<char>>(nodes_view(res@) + rest),
                Err(w) => Err(w),
            }),
        decreases froms.len() - i,
    {
        let ghost done = nodes_view(res@);
        let ghost from_view = all[i as int].0;
        assert(all.skip(i as int)[0] == all[i as int]);
        assert(all.skip(i as int).drop_first() =~= all.skip(i + 1));
        let sets = parse_feature_set(interner, to, ft, froms[i].1.clone())?;
        let ghost here = sets_view(sets@).map_values(
            |r: Reading<Features>|
                (LexiconNodeView::Lambda { from: Box::new(from_view), to: r.0, project }, r.1),
        );
        let mut j: usize = 0;
        while j < sets.len()
            invariant
                j <= sets.len(),
                i < froms.len(),
                from_view == froms@[i as int].0@,
                here == sets_view(sets@).map_values(
                    |r: Reading<Features>|
                        (LexiconNodeView::Lambda { from: Box::new(from_view), to: r.0, project }, r.1),
                ),
                nodes_view(res@) =~= done + here.take(j as int),
            decreases sets.len() - j,
        {
            let ghost old_view = nodes_view(res@);
            res.push(
                (
                    LexiconNode::Lambda {
                        from: Box::new(froms[i].0.clone()),
                        to: sets[j].0.clone(),
                        project,
                    },
                    sets[j].1.clone(),
                ),
            );
            proof {
                assert(here.take(j + 1) =~= here.take(j as int).push(here[j as int]));
                assert(nodes_view(res@) =~= old_view.push(here[j as int]));
            }
            j = j + 1;
        }
        proof {
            assert(here.take(j as int) =~= here);
            match lambda_readings(interner, ft@, all.skip(i + 1), words_view(to@), project) {
                Ok(rest) => {
                    assert((done + here) + rest =~= done + (here + rest));
                },
                Err(_) => {},
            }
        }
        i = i + 1;
    }
    assert(all.skip(i as int).len() == 0);
    assert(nodes_view(res@) + Seq::<Reading<LexiconNodeView>>::empty() =~= nodes_view(res@));
    Ok(res)
}

} // verus!
