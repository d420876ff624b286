use crate::syntax::{Feature, Key};
use std::collections::HashMap;
use vstd::prelude::*;

verus! {

/// The mathematical content of a [`FeatureTopology`].
pub struct TopologyView {
    /// The values of each category, in the order in which they were given.
    pub categories: Map<Key, Seq<Key>>,
    /// The category of each value.
    pub values: Map<Key, Key>,
}

impl TopologyView {
    /// The topology without categories.
    pub open spec fn empty() -> TopologyView {
        TopologyView { categories: Map::empty(), values: Map::empty() }
    }

    /// The values of `category` so far.
    pub open spec fn values_of(self, category: Key) -> Seq<Key> {
        if self.categories.contains_key(category) {
            self.categories[category]
        } else {
            Seq::empty()
        }
    }

    /// What the word `s` stands for: the name of a value stands for its
    /// category bound to the value; the name of a category for the
    /// category; any other word is a bare marker.
    pub open spec fn feature_of(self, s: Key) -> Feature {
        if self.values.contains_key(s) {
            Feature::Feat { category: self.values[s], value: s }
        } else if self.categories.contains_key(s) {
            Feature::Cat(s)
        } else {
            Feature::Val(s)
        }
    }

    /// The topology with `value` as a value of `category`, once more if it
    /// is one already. A value has one category: the last that it was
    /// given.
    pub open spec fn insert_again(self, category: Key, value: Key) -> TopologyView {
        TopologyView {
            categories: self.categories.insert(category, self.values_of(category).push(value)),
            values: self.values.insert(value, category),
        }
    }

    /// The topology with `value` as a value of `category`. A value has one
    /// category: the last that it was given.
    pub open spec fn insert(self, category: Key, value: Key) -> TopologyView {
        TopologyView {
            categories: self.categories.insert(
                category,
                if self.values_of(category).contains(value) {
                    self.values_of(category)
                } else {
                    self.values_of(category).push(value)
                },
            ),
            values: self.values.insert(value, category),
        }
    }
}

/// Whether the list `values` holds `value`.
fn holds_key(values: &Vec<Key>, value: Key) -> (r: bool)
    ensures
        r == values@.contains(value),
{
    let mut i: usize = 0;
    while i < values.len()
        invariant
            i <= values.len(),
            forall|j: int| 0 <= j < i ==> values@[j] != value,
        decreases values.len() - i,
    {
        if values[i] == value {
            return true;
        }
        i = i + 1;
    }
    false
}

/// Which values each category has, and which category each value belongs
/// to.
#[derive(Debug)]
pub struct FeatureTopology {
    cat_map: HashMap<Key, Vec<Key>>,
    val_map: HashMap<Key, Key>,
}

impl View for FeatureTopology {
    type V = TopologyView;

    closed spec fn view(&self) -> TopologyView {
        TopologyView {
            categories: self.cat_map@.map_values(|v: Vec<Key>| v@),
            values: self.val_map@,
        }
    }
}

impl FeatureTopology {
    /// The topology without categories.
    pub fn new() -> (r: FeatureTopology)
        ensures
            r@ == TopologyView::empty(),
    {
        let r = FeatureTopology { cat_map: HashMap::new(), val_map: HashMap::new() };
        assert(r@.categories =~= Map::<Key, Seq<Key>>::empty());
        r
    }

    /// Makes `value` a value of `category`.
    pub fn insert(&mut self, category: Key, value: Key)
        ensures
            final(self)@ == old(self)@.insert(category, value),
    {
        broadcast use vstd::std_specs::hash::group_hash_axioms;

        let mut values = match self.cat_map.remove(&category) {
            Some(values) => values,
            None => Vec::new(),
        };
        assert(values@ == old(self)@.values_of(category));
        let known = holds_key(&values, value);
        if !known {
            values.push(value);
        }
        self.cat_map.insert(category, values);
        self.val_map.insert(value, category);
        assert(self@.categories =~= old(self)@.insert(category, value).categories);
    }

    /// Whether `category` has been given a value.
    pub fn is_category(&self, category: &Key) -> (r: bool)
        ensures
            r == self@.categories.contains_key(*category),
    {
        broadcast use vstd::std_specs::hash::group_hash_axioms;

        self.cat_map.contains_key(category)
    }

    /// The values of `category`, if it has any.
    pub fn get_from_category(&self, category: &Key) -> (r: Option<&Vec<Key>>)
        ensures
            match r {
                Some(values) => self@.categories.contains_key(*category) && values@
                    == self@.categories[*category],
                None => !self@.categories.contains_key(*category),
            },
    {
        broadcast use vstd::std_specs::hash::group_hash_axioms;

        self.cat_map.get(category)
    }

    /// What the word `s` stands for.
    pub fn to_feature(&self, s: Key) -> (r: Feature)
        ensures
            r == self@.feature_of(s),
    {
        if let Some(category) = self.get_from_value(&s) {
            Feature::new_both(category, s)
        } else if self.is_category(&s) {
            Feature::new_category(s)
        } else {
            Feature::new_value(s)
        }
    }

    /// The category of `value`, if it has one.
    pub fn get_from_value(&self, value: &Key) -> (r: Option<Key>)
        ensures
            match r {
                Some(category) => self@.values.contains_key(*value) && category
                    == self@.values[*value],
                None => !self@.values.contains_key(*value),
            },
    {
        broadcast use vstd::std_specs::hash::group_hash_axioms;

        match self.val_map.get(value) {
            Some(category) => Some(*category),
            None => None,
        }
    }
}

} // verus!
