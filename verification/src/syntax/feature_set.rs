use super::error::Error;
use super::feature::Feature;
use crate::interner::{name_view, Interner};
use crate::text::{join, joined, sort, sorted, texts};
use std::collections::BTreeMap;
use vstd::prelude::*;
use vstd::std_specs::cmp::OrdSpec;
use vstd::std_specs::iter::IteratorSpec;
use vstd::string::StringExecFns;

verus! {

/// An interned symbol: a category name, a feature value or a lexical token.
/// Keys are compared and ordered as numbers.
pub type Key = u64;

/// The mathematical content of a feature set: each category occurs at most
/// once, bare (`None`) or bound to a value.
pub type Features = Map<Key, Option<Key>>;

/// Whether `m` holds exactly the pair `(key, value)`.
pub open spec fn holds(m: Features, key: Key, value: Option<Key>) -> bool {
    m.contains_key(key) && m[key] == value
}

/// The pairs of `from` that do not occur identically in `ignore`.
pub open spec fn projection(from: Features, ignore: Features) -> Features {
    Map::new(|k: Key| from.contains_key(k) && !holds(ignore, k, from[k]), |k: Key| from[k])
}

/// What a merge of `from` onto `onto` gives, leaving out the pairs that
/// `ignore` holds identically: `onto` with the remaining pairs added, or a
/// failure if `onto` already defines one of their categories.
pub open spec fn merged(from: Features, onto: Features, ignore: Features) -> Result<Features, Error> {
    if projection(from, ignore).dom().disjoint(onto.dom()) {
        Ok(onto.union_prefer_right(projection(from, ignore)))
    } else {
        Err(Error::CategoryAlreadyHasValue)
    }
}

/// Every feature set is a subset of itself.
pub proof fn lemma_subset_reflexive(a: Features)
    ensures
        a.submap_of(a),
{
}

/// The conflict law: a merge fails whenever the target already defines a
/// category that the source defines too and that is not ignored with the
/// source's value, whatever value the target gives it, the same as the
/// source's or another.
pub proof fn lemma_project_conflict(from: Features, onto: Features, ignore: Features, c: Key)
    requires
        onto.contains_key(c),
        from.contains_key(c),
        !holds(ignore, c, from[c]),
    ensures
        merged(from, onto, ignore) == Err::<Features, Error>(Error::CategoryAlreadyHasValue),
{
    assert(projection(from, ignore).dom().contains(c));
}

/// A conflict-free conjunction of category attributes.
#[derive(Debug, PartialEq, Eq, Hash, PartialOrd, Ord)]
pub struct FeatureSet {
    map: BTreeMap<Key, Option<Key>>,
}

impl View for FeatureSet {
    type V = Features;

    closed spec fn view(&self) -> Features {
        self.map@
    }
}

impl Clone for FeatureSet {
    fn clone(&self) -> (r: Self)
        ensures
            r@ == self@,
    {
        FeatureSet { map: self.map.clone() }
    }
}

impl Default for FeatureSet {
    fn default() -> (r: Self)
        ensures
            r@ == Features::empty(),
    {
        Self::new()
    }
}

impl FeatureSet {
    /// The empty feature set.
    pub fn new() -> (r: Self)
        ensures
            r@ == Features::empty(),
    {
        FeatureSet { map: BTreeMap::new() }
    }

    /// The feature set that holds one bare category.
    pub fn from_category(category: Key) -> (r: Self)
        ensures
            r@ == Features::empty().insert(category, None),
    {
        let mut r = Self::new();
        r.insert(category, None);
        r
    }

    /// The feature set that holds the feature `feature`, which must not be
    /// a category without a value.
    pub fn from_feature(feature: Feature) -> (r: Self)
        requires
            !(feature is Cat),
        ensures
            r@ == Features::empty().insert(feature.category(), feature.value()),
    {
        let mut r = Self::new();
        let _ = r.insert_feature(feature);
        r
    }

    /// Defines the category of `feature` unless it is defined already. A
    /// category without a value is no feature.
    pub fn insert_feature(&mut self, feature: Feature) -> (r: Result<(), Error>)
        ensures
            r is Ok <==> !(feature is Cat) && !old(self)@.contains_key(feature.category()),
            r is Ok ==> final(self)@ == old(self)@.insert(feature.category(), feature.value()),
            r is Err ==> final(self)@ == old(self)@ && r == Err::<(), Error>(
                if feature is Cat {
                    Error::FeatureIsCategory
                } else {
                    Error::CategoryAlreadyHasValue
                },
            ),
    {
        match feature {
            Feature::Cat(_) => Err(Error::FeatureIsCategory),
            Feature::Val(v) => self.insert_if_absent(v, None),
            Feature::Feat { category, value } => self.insert_if_absent(category, Some(value)),
        }
    }

    /// The value bound to `key`, if the category is defined.
    pub fn get(&self, key: &Key) -> (r: Option<&Option<Key>>)
        ensures
            r is Some <==> self@.contains_key(*key),
            r is Some ==> *r->0 == self@[*key],
    {
        broadcast use vstd::laws_cmp::group_laws_cmp;

        self.map.get(key)
    }

    /// Defines `key`, replacing what it was bound to.
    pub fn insert(&mut self, key: Key, value: Option<Key>)
        ensures
            final(self)@ == old(self)@.insert(key, value),
    {
        broadcast use vstd::laws_cmp::group_laws_cmp;

        self.map.insert(key, value);
    }

    /// Removes the category `key`, if it is defined.
    pub fn remove(&mut self, key: &Key)
        ensures
            final(self)@ == old(self)@.remove(*key),
    {
        broadcast use vstd::laws_cmp::group_laws_cmp;

        self.map.remove(key);
    }

    /// Defines `key` unless it is defined already, with whatever value.
    pub fn insert_if_absent(&mut self, key: Key, value: Option<Key>) -> (r: Result<(), Error>)
        ensures
            r is Ok <==> !old(self)@.contains_key(key),
            r is Ok ==> final(self)@ == old(self)@.insert(key, value),
            r is Err ==> r == Err::<(), Error>(Error::CategoryAlreadyHasValue) && final(self)@
                == old(self)@,
    {
        match self.get(&key) {
            Some(_) => Err(Error::CategoryAlreadyHasValue),
            None => {
                self.insert(key, value);
                Ok(())
            },
        }
    }

    /// Whether the set holds exactly the pair `(key, value)`.
    pub fn contains_key_value(&self, key: &Key, value: &Option<Key>) -> (r: bool)
        ensures
            r == holds(self@, *key, *value),
    {
        match self.get(key) {
            Some(v) => *v == *value,
            None => false,
        }
    }

    /// Removes the pair `(key, value)` if the set holds exactly it.
    pub fn remove_key_value(&mut self, key: &Key, value: &Option<Key>)
        ensures
            final(self)@ == (if holds(old(self)@, *key, *value) {
                old(self)@.remove(*key)
            } else {
                old(self)@
            }),
    {
        if self.contains_key_value(key, value) {
            self.remove(key);
        }
    }

    /// Merges onto `onto` every pair of `from` that `ignore` does not hold
    /// identically. The merge is conflict-checked and atomic: if `onto`
    /// already defines one of the categories to add, even with the same
    /// value, nothing is added and the merge fails.
    pub fn project(from: &FeatureSet, onto: &mut FeatureSet, ignore: &FeatureSet) -> (r: Result<
        (),
        Error,
    >)
        ensures
            match merged(from@, old(onto)@, ignore@) {
                Ok(m) => r is Ok && final(onto)@ == m,
                Err(e) => r == Err::<(), Error>(e) && final(onto)@ == old(onto)@,
            },
    {
        broadcast use vstd::laws_cmp::group_laws_cmp;

        let ghost added = projection(from@, ignore@);
        for kv in it: from.map.iter()
            invariant
                *onto == *old(onto),
                added == projection(from@, ignore@),
                forall|j: int|
                    0 <= j < it.index() ==> !(added.contains_key(*it.seq()[j].0)
                        && onto@.contains_key(*it.seq()[j].0)),
        {
            if !ignore.contains_key_value(kv.0, kv.1) && onto.get(kv.0).is_some() {
                assert(added.dom().contains(*kv.0) && onto@.dom().contains(*kv.0));
                return Err(Error::CategoryAlreadyHasValue);
            }
        }
        for kv in it: from.map.iter()
            invariant
                added == projection(from@, ignore@),
                added.dom().disjoint(old(onto)@.dom()),
                onto@.dom() =~= old(onto)@.dom().union(
                    Set::new(
                        |k: Key|
                            added.contains_key(k) && exists|j: int|
                                0 <= j < it.index() && *it.seq()[j].0 == k,
                    ),
                ),
                forall|k: Key| #[trigger]
                    onto@.contains_key(k) ==> onto@[k] == (if old(onto)@.contains_key(k) {
                        old(onto)@[k]
                    } else {
                        added[k]
                    }),
        {
            if !ignore.contains_key_value(kv.0, kv.1) {
                onto.insert(*kv.0, *kv.1);
            }
        }
        assert(onto@ =~= old(onto)@.union_prefer_right(added));
        Ok(())
    }

    /// Whether every pair of `self` occurs identically in `other`.
    pub fn is_subset(&self, other: &FeatureSet) -> (r: bool)
        ensures
            r == self@.submap_of(other@),
    {
        broadcast use vstd::laws_cmp::group_laws_cmp;

        for kv in it: self.map.iter()
            invariant
                forall|j: int|
                    0 <= j < it.index() ==> holds(other@, *it.seq()[j].0, *it.seq()[j].1),
        {
            if !other.contains_key_value(kv.0, kv.1) {
                assert(self@.dom().contains(*kv.0) && self@[*kv.0] == *kv.1);
                return false;
            }
        }
        assert forall|k: Key| self@.dom().contains(k) implies other@.dom().contains(k) && self@[k]
            == other@[k] by {
            assert(self@.contains_key(k));
        }
        true
    }

    /// Whether the two sets hold the same pairs.
    pub fn equals(&self, other: &FeatureSet) -> (r: bool)
        ensures
            r == (self@ == other@),
    {
        let r = self.is_subset(other) && other.is_subset(self);
        proof {
            if r {
                assert forall|k: Key| self@.dom().contains(k) == other@.dom().contains(k) by {}
                assert(self@.dom() =~= other@.dom());
                assert(self@ =~= other@);
            }
        }
        r
    }

    /// The number of categories that the set defines.
    pub fn len(&self) -> (r: usize)
        ensures
            r == self@.len(),
    {
        self.map.len()
    }

    /// How each pair of the set is written, in ascending order of the
    /// categories; nothing if a key has no name.
    pub fn entries<I: Interner>(&self, names: &I) -> (r: Option<Vec<String>>)
        ensures
            match pair_texts(names, listing(self@)) {
                Some(entries) => r is Some && texts(r->0@) == entries,
                None => r is None,
            },
    {
        let pairs = self.pairs();
        let ghost all = pairs@;
        let mut entries: Vec<String> = Vec::new();
        let mut i: usize = 0;
        assert(texts(entries@) =~= Seq::<Seq<char>>::empty());
        while i < pairs.len()
            invariant
                i <= pairs.len(),
                all == pairs@,
                all == listing(self@),
                pair_texts(names, all.take(i as int)) == Some(texts(entries@)),
            decreases pairs.len() - i,
        {
            let (category, value) = pairs[i];
            proof {
                assert(all.take(i + 1).drop_last() =~= all.take(i as int));
                assert(all.take(i + 1).last() == (category, value));
            }
            let mut entry = match names.resolve(category) {
                Some(name) => name,
                None => {
                    proof {
                        lemma_pair_texts_fail(names, all, i + 1);
                    }
                    return None;
                },
            };
            match value {
                Some(value) => {
                    entry.append(":");
                    match names.resolve(value) {
                        Some(name) => {
                            entry.append(name.as_str());
                        },
                        None => {
                            proof {
                                lemma_pair_texts_fail(names, all, i + 1);
                            }
                            return None;
                        },
                    }
                },
                None => {},
            }
            let ghost before = texts(entries@);
            let ghost text = entry@;
            entries.push(entry);
            assert(texts(entries@) =~= before.push(text));
            i = i + 1;
        }
        assert(all.take(i as int) =~= all);
        Some(entries)
    }

    /// The set as it is written: its pairs in the order of a dictionary,
    /// joined by two hyphens; nothing if a key has no name.
    pub fn to_string<I: Interner>(&self, names: &I) -> (r: Option<String>)
        ensures
            name_view(r) == features_text(names, self@, "--"@),
    {
        self.to_string_with(names, "--")
    }

    /// The set as it is written: its pairs in the order of a dictionary,
    /// joined by `sep`; nothing if a key has no name.
    pub fn to_string_with<I: Interner>(&self, names: &I, sep: &str) -> (r: Option<String>)
        ensures
            name_view(r) == features_text(names, self@, sep@),
    {
        match self.entries(names) {
            Some(entries) => Some(join(&sort(entries), sep)),
            None => None,
        }
    }

    /// The feature set that the pairs `pairs` make up, one after the
    /// other.
    pub fn from_pairs(pairs: &Vec<(Key, Option<Key>)>) -> (r: Self)
        ensures
            r@ == gathered(pairs@),
    {
        let mut r = Self::new();
        let mut i: usize = 0;
        assert(pairs@.take(0) =~= Seq::empty());
        while i < pairs.len()
            invariant
                i <= pairs.len(),
                r@ == gathered(pairs@.take(i as int)),
            decreases pairs.len() - i,
        {
            assert(pairs@.take(i + 1).drop_last() =~= pairs@.take(i as int));
            r.insert(pairs[i].0, pairs[i].1);
            i = i + 1;
        }
        assert(pairs@.take(i as int) =~= pairs@);
        r
    }

    /// The pairs of the set, in ascending order of their categories.
    pub fn pairs(&self) -> (r: Vec<(Key, Option<Key>)>)
        ensures
            is_listing(r@, self@),
            r@ == listing(self@),
    {
        broadcast use vstd::laws_cmp::group_laws_cmp;

        let mut r: Vec<(Key, Option<Key>)> = Vec::new();
        let iter = self.map.iter();
        let ghost entries = iter.remaining();
        proof {
            vstd::std_specs::btree::axiom_increasing_seq_meaning(
                entries.map_values(|kv: (&Key, &Option<Key>)| *kv.0),
            );
        }
        for kv in it: iter
            invariant
                it.seq() == entries,
                r@.len() == it.index(),
                forall|j: int| 0 <= j < r@.len() ==> r@[j] == (*entries[j].0, *entries[j].1),
        {
            r.push((*kv.0, *kv.1));
        }
        proof {
            let keys = entries.map_values(|kv: (&Key, &Option<Key>)| *kv.0);
            assert forall|i: int, j: int| 0 <= i < j < r@.len() implies r@[i].0 < r@[j].0 by {
                assert(keys[i] == r@[i].0 && keys[j] == r@[j].0);
                assert(keys[i].cmp_spec(&keys[j]) is Less);
            }
            assert forall|k: Key| self@.contains_key(k) implies exists|i: int|
                0 <= i < r@.len() && #[trigger] r@[i].0 == k by {
                assert(entries.contains((&k, &self@[k])));
                let i = choose|i: int| 0 <= i < entries.len() && entries[i] == (&k, &self@[k]);
                assert(r@[i].0 == k);
            }
            assert(is_listing(r@, self@));
            crate::lexicon::lemma_listing_is_unique(r@, listing(self@), self@);
        }
        r
    }

    /// An iterator over the pairs of the set, in ascending order of their
    /// categories.
    pub fn iter(&self) -> (r: FeatureSetIter)
        ensures
            is_listing(r.items@, self@),
            r.items@ == listing(self@),
            r.pos == 0,
    {
        FeatureSetIter { items: self.pairs(), pos: 0 }
    }
}

/// The feature set that the pairs `pairs` make up, one after the other: a
/// later pair defines its category anew.
pub open spec fn gathered(pairs: Seq<(Key, Option<Key>)>) -> Features
    decreases pairs.len(),
{
    if pairs.len() == 0 {
        Map::empty()
    } else {
        gathered(pairs.drop_last()).insert(pairs.last().0, pairs.last().1)
    }
}

/// Whether `s` lists the pairs of `m`, each once, in strictly ascending
/// order of their categories.
pub open spec fn is_listing(s: Seq<(Key, Option<Key>)>, m: Features) -> bool {
    &&& forall|i: int, j: int| 0 <= i < j < s.len() ==> s[i].0 < s[j].0
    &&& forall|i: int| 0 <= i < s.len() ==> holds(m, #[trigger] s[i].0, s[i].1)
    &&& forall|k: Key| m.contains_key(k) ==> exists|i: int| 0 <= i < s.len() && #[trigger] s[i].0 == k
}

/// The pairs of `m` in strictly ascending order of their categories.
pub open spec fn listing(m: Features) -> Seq<(Key, Option<Key>)> {
    choose|s: Seq<(Key, Option<Key>)>| is_listing(s, m)
}

/// How a pair is written: the name of the category, followed, if a value
/// is bound to it, by a colon and the name of the value. Nothing if a key
/// has no name.
pub open spec fn pair_text<I: Interner>(names: &I, pair: (Key, Option<Key>)) -> Option<Seq<char>> {
    match (names.name_of(pair.0), pair.1) {
        (Some(category), None) => Some(category),
        (Some(category), Some(value)) => match names.name_of(value) {
            Some(value) => Some(category + ":"@ + value),
            None => None,
        },
        (None, _) => None,
    }
}

/// How the pairs `pairs` are written, each for itself; nothing if a key
/// has no name.
pub open spec fn pair_texts<I: Interner>(names: &I, pairs: Seq<(Key, Option<Key>)>) -> Option<
    Seq<Seq<char>>,
>
    decreases pairs.len(),
{
    if pairs.len() == 0 {
        Some(Seq::empty())
    } else {
        match (pair_texts(names, pairs.drop_last()), pair_text(names, pairs.last())) {
            (Some(front), Some(last)) => Some(front.push(last)),
            _ => None,
        }
    }
}

/// If the first `n` pairs cannot all be written, the pairs cannot.
pub proof fn lemma_pair_texts_fail<I: Interner>(names: &I, pairs: Seq<(Key, Option<Key>)>, n: int)
    requires
        0 <= n <= pairs.len(),
        pair_texts(names, pairs.take(n)) is None,
    ensures
        pair_texts(names, pairs) is None,
    decreases pairs.len() - n,
{
    if n < pairs.len() {
        assert(pairs.take(n + 1).drop_last() =~= pairs.take(n));
        lemma_pair_texts_fail(names, pairs, n + 1);
    } else {
        assert(pairs.take(n) =~= pairs);
    }
}

/// How the feature set `m` is written with the separator `sep`: its pairs
/// in the order of a dictionary, with `sep` between each two.
pub open spec fn features_text<I: Interner>(names: &I, m: Features, sep: Seq<char>) -> Option<Seq<char>> {
    match pair_texts(names, listing(m)) {
        Some(entries) => Some(joined(sorted(entries), sep)),
        None => None,
    }
}

/// A cursor over the pairs of a feature set.
pub struct FeatureSetIter {
    pub items: Vec<(Key, Option<Key>)>,
    pub pos: usize,
}

impl FeatureSetIter {
    /// The next pair, if any is left.
    pub fn next(&mut self) -> (r: Option<(Key, Option<Key>)>)
        ensures
            final(self).items == old(self).items,
            old(self).pos < old(self).items@.len() ==> r == Some(old(self).items@[old(self).pos as int])
                && final(self).pos == old(self).pos + 1,
            old(self).pos >= old(self).items@.len() ==> r is None && final(self).pos == old(self).pos,
    {
        if self.pos < self.items.len() {
            let item = self.items[self.pos];
            self.pos = self.pos + 1;
            Some(item)
        } else {
            None
        }
    }
}

} // verus!
