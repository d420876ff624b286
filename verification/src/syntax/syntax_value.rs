use super::error::Error;
use super::feature_set::{features_text, FeatureSet, Features, Key};
use crate::interner::{name_view, Interner};
use vstd::prelude::*;

verus! {

/// A slot whose content is not resolved yet: a bare token or a feature set.
#[derive(Debug, PartialEq, Eq, Hash, PartialOrd, Ord)]
pub enum SyntaxValue {
    Item(Key),
    Features(FeatureSet),
}

/// The mathematical content of a [`SyntaxValue`].
pub enum SyntaxValueView {
    Item(Key),
    Features(Features),
}

impl SyntaxValueView {
    /// How the slot is written: a token by its name, a feature set by its
    /// pairs joined by two hyphens. Nothing if a key has no name.
    pub open spec fn text<I: Interner>(self, names: &I) -> Option<Seq<char>> {
        match self {
            SyntaxValueView::Item(k) => names.name_of(k),
            SyntaxValueView::Features(fs) => features_text(names, fs, "--"@),
        }
    }
}

impl View for SyntaxValue {
    type V = SyntaxValueView;

    open spec fn view(&self) -> SyntaxValueView {
        match *self {
            SyntaxValue::Item(k) => SyntaxValueView::Item(k),
            SyntaxValue::Features(fs) => SyntaxValueView::Features(fs@),
        }
    }
}

impl Clone for SyntaxValue {
    fn clone(&self) -> (r: Self)
        ensures
            r@ == self@,
    {
        match self {
            SyntaxValue::Item(k) => SyntaxValue::Item(*k),
            SyntaxValue::Features(fs) => SyntaxValue::Features(fs.clone()),
        }
    }
}

impl SyntaxValue {
    /// The slot that holds the token `item`.
    pub fn from_item(item: Key) -> (r: Self)
        ensures
            r@ == SyntaxValueView::Item(item),
    {
        SyntaxValue::Item(item)
    }

    /// The slot that holds the feature set `features`.
    pub fn from_features(features: FeatureSet) -> (r: Self)
        ensures
            r@ == SyntaxValueView::Features(features@),
    {
        SyntaxValue::Features(features)
    }

    /// The feature set of the slot; a token is no feature set.
    pub fn as_features(&self) -> (r: Result<&FeatureSet, Error>)
        ensures
            match self@ {
                SyntaxValueView::Features(fs) => r is Ok && r->Ok_0@ == fs,
                SyntaxValueView::Item(_) => r == Err::<&FeatureSet, Error>(Error::TypeConversion),
            },
    {
        match self {
            SyntaxValue::Features(fs) => Ok(fs),
            SyntaxValue::Item(_) => Err(Error::TypeConversion),
        }
    }

    /// Turns the slot into its feature set; a token is no feature set.
    pub fn into_features(self) -> (r: Result<FeatureSet, Error>)
        ensures
            match self@ {
                SyntaxValueView::Features(fs) => r is Ok && r->Ok_0@ == fs,
                SyntaxValueView::Item(_) => r == Err::<FeatureSet, Error>(Error::TypeConversion),
            },
    {
        match self {
            SyntaxValue::Features(fs) => Ok(fs),
            SyntaxValue::Item(_) => Err(Error::TypeConversion),
        }
    }

    /// The slot as it is written; nothing if a key has no name.
    pub fn to_string<I: Interner>(&self, names: &I) -> (r: Option<String>)
        ensures
            name_view(r) == self@.text(names),
    {
        match self {
            SyntaxValue::Item(item) => names.resolve(*item),
            SyntaxValue::Features(features) => features.to_string(names),
        }
    }

    /// Whether the two slots hold the same content.
    pub fn equals(&self, other: &SyntaxValue) -> (r: bool)
        ensures
            r == (self@ == other@),
    {
        match (self, other) {
            (SyntaxValue::Item(a), SyntaxValue::Item(b)) => *a == *b,
            (SyntaxValue::Features(a), SyntaxValue::Features(b)) => a.equals(b),
            _ => false,
        }
    }
}

} // verus!
