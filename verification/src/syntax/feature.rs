use super::feature_set::{pair_text, Key};
use crate::interner::{name_view, Interner};
use vstd::string::StringExecFns;
use vstd::prelude::*;

verus! {

/// One attribute as it is written: the name of a category, a bare marker,
/// or a category bound to a value.
#[derive(Debug, Clone, Copy, PartialEq, Eq, Hash, Structural)]
pub enum Feature {
    Cat(Key),
    Val(Key),
    Feat { category: Key, value: Key },
}

impl Feature {
    /// The key under which a feature set holds the feature.
    pub open spec fn category(self) -> Key {
        match self {
            Feature::Cat(c) => c,
            Feature::Val(v) => v,
            Feature::Feat { category, .. } => category,
        }
    }

    /// What a feature set binds to that key.
    pub open spec fn value(self) -> Option<Key> {
        match self {
            Feature::Feat { value, .. } => Some(value),
            _ => None,
        }
    }

    /// How the feature is written: a category bound to a value as the two
    /// names with a colon between, any other by its name. Nothing if a key
    /// has no name.
    pub open spec fn text<I: Interner>(self, names: &I) -> Option<Seq<char>> {
        pair_text(names, (self.category(), self.value()))
    }

    /// The feature as it is written; nothing if a key has no name.
    pub fn to_string<I: Interner>(&self, names: &I) -> (r: Option<String>)
        ensures
            name_view(r) == self.text(names),
    {
        match self {
            Feature::Cat(c) => names.resolve(*c),
            Feature::Val(v) => names.resolve(*v),
            Feature::Feat { category, value } => match names.resolve(*category) {
                Some(mut r) => match names.resolve(*value) {
                    Some(value) => {
                        r.append(":");
                        r.append(value.as_str());
                        Some(r)
                    },
                    None => None,
                },
                None => None,
            },
        }
    }

    pub fn new_both(category: Key, value: Key) -> (r: Feature)
        ensures
            r == (Feature::Feat { category, value }),
    {
        Feature::Feat { category, value }
    }

    pub fn new_category(category: Key) -> (r: Feature)
        ensures
            r == Feature::Cat(category),
    {
        Feature::Cat(category)
    }

    pub fn new_value(value: Key) -> (r: Feature)
        ensures
            r == Feature::Val(value),
    {
        Feature::Val(value)
    }
}

} // verus!
