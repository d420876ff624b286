use crate::lexicon::parser::TopologyView;
use crate::syntax::{Feature, Key};
use multimap::MultiMap;
use std::collections::HashMap;
use vstd::prelude::*;

verus! {

/// What the multimap holds: for each category the values that were
/// inserted under it, in the order in which they were inserted.
pub uninterp spec fn values_held(m: MultiMap<Key, Key>) -> Map<Key, Seq<Key>>;

/// The values held under `k`, none if the key is not there.
pub open spec fn values_under(m: Map<Key, Seq<Key>>, k: Key) -> Seq<Key> {
    if m.contains_key(k) {
        m[k]
    } else {
        Seq::empty()
    }
}

/// `MultiMap::new` of the crate multimap: a multimap that holds nothing.
#[verifier::external_body]
fn categories_new() -> (r: MultiMap<Key, Key>)
    ensures
        values_held(r) == (Map::<Key, Seq<Key>>::empty()),
{
    MultiMap::new()
}

/// `MultiMap::insert` of the crate multimap: the value is appended to the
/// values of the key; a key that is not there gets the value as its only
/// one.
#[verifier::external_body]
fn categories_insert(m: &mut MultiMap<Key, Key>, k: Key, v: Key)
    ensures
        values_held(*final(m)) == values_held(*old(m)).insert(
            k,
            values_under(values_held(*old(m)), k).push(v),
        ),
{
    m.insert(k, v)
}

/// `MultiMap::contains_key` of the crate multimap: whether the key is
/// there.
#[verifier::external_body]
fn categories_contains_key(m: &MultiMap<Key, Key>, k: &Key) -> (r: bool)
    ensures
        r == values_held(*m).contains_key(*k),
{
    m.contains_key(k)
}

/// `MultiMap::get_vec` of the crate multimap: the values of the key, if
/// the key is there.
#[verifier::external_body]
fn categories_get_vec<'a>(m: &'a MultiMap<Key, Key>, k: &Key) -> (r: Option<&'a Vec<Key>>)
    ensures
        match r {
            Some(v) => values_held(*m).contains_key(*k) && v@ == values_held(*m)[*k],
            None => !values_held(*m).contains_key(*k),
        },
{
    m.get_vec(k)
}

/// Which values each category has, every value as often as it was given,
/// and which category each value belongs to.
pub struct FeatureTopology {
    cat_map: MultiMap<Key, Key>,
    val_map: HashMap<Key, Key>,
}

impl View for FeatureTopology {
    type V = TopologyView;

    closed spec fn view(&self) -> TopologyView {
        TopologyView { categories: values_held(self.cat_map), values: self.val_map@ }
    }
}

impl FeatureTopology {
    /// The topology without categories.
    pub fn new() -> (r: FeatureTopology)
        ensures
            r@ == TopologyView::empty(),
    {
        FeatureTopology { cat_map: categories_new(), val_map: HashMap::new() }
    }

    /// Makes `value` a value of `category`, once more if it is one already.
    pub fn insert(&mut self, category: Key, value: Key)
        ensures
            final(self)@ == old(self)@.insert_again(category, value),
    {
        broadcast use vstd::std_specs::hash::group_hash_axioms;

        categories_insert(&mut self.cat_map, category, value);
        self.val_map.insert(value, category);
    }

    /// Whether `category` has been given a value.
    pub fn is_category(&self, category: &Key) -> (r: bool)
        ensures
            r == self@.categories.contains_key(*category),
    {
        categories_contains_key(&self.cat_map, category)
    }

    /// The values of `category`, if it has any.
    pub fn get_from_category(&self, category: &Key) -> (r: Option<&Vec<Key>>)
        ensures
            match r {
                Some(values) => self@.categories.contains_key(*category) && values@
                    == self@.categories[*category],
                None => !self@.categories.contains_key(*category),
            },
    {
        categories_get_vec(&self.cat_map, category)
    }

    /// The category of `value`, if it has one.
    pub fn get_from_value(&self, value: &Key) -> (r: Option<Key>)
        ensures
            match r {
                Some(category) => self@.values.contains_key(*value) && category
                    == self@.values[*value],
                None => !self@.values.contains_key(*value),
            },
    {
        broadcast use vstd::std_specs::hash::group_hash_axioms;

        match self.val_map.get(value) {
            Some(category) => Some(*category),
            None => None,
        }
    }

    /// What the word `s` stands for.
    pub fn to_feature(&self, s: Key) -> (r: Feature)
        ensures
            r == self@.feature_of(s),
    {
        if let Some(category) = self.get_from_value(&s) {
            Feature::new_both(category, s)
        } else if self.is_category(&s) {
            Feature::new_category(s)
        } else {
            Feature::new_value(s)
        }
    }
}

} // verus!
