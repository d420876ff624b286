use super::error::Error;
use crate::lexicon::{LexiconNode, LexiconNodeView};
use crate::syntax::{FeatureSet, Features, SyntaxValue, SyntaxValueView};
use vstd::prelude::*;

verus! {

/// A lexicon node in the form that the frontier model applies: a plain
/// feature set, or a function whose result is a feature set.
#[derive(Debug, PartialEq, Eq)]
pub enum ValidEntry {
    Features(FeatureSet),
    Lambda { from: Box<ValidEntry>, to: FeatureSet, project: bool },
}

/// The mathematical content of a [`ValidEntry`].
pub enum ValidEntryView {
    Features(Features),
    Lambda { from: Box<ValidEntryView>, to: Features, project: bool },
}

impl ValidEntryView {
    /// The feature set that the entry results in.
    pub open spec fn features_right(self) -> Features {
        match self {
            ValidEntryView::Features(fs) => fs,
            ValidEntryView::Lambda { to, .. } => to,
        }
    }

    /// The entry with `fs` as the feature set that it results in.
    pub open spec fn with_features_right(self, fs: Features) -> ValidEntryView {
        match self {
            ValidEntryView::Features(_) => ValidEntryView::Features(fs),
            ValidEntryView::Lambda { from, to, project } => ValidEntryView::Lambda {
                from,
                to: fs,
                project,
            },
        }
    }

    /// The entry as an unresolved slot: only a plain feature set is one.
    pub open spec fn as_syntax_value(self) -> Result<SyntaxValueView, Error> {
        match self {
            ValidEntryView::Features(fs) => Ok(SyntaxValueView::Features(fs)),
            ValidEntryView::Lambda { .. } => Err(Error::TypeConversion),
        }
    }

    /// The applicable form of a lexicon node. A token has none; a moved
    /// feature set counts as a plain one; a function has one if its
    /// argument has.
    pub open spec fn of_node(node: LexiconNodeView) -> Result<ValidEntryView, Error>
        decreases node,
    {
        match node {
            LexiconNodeView::Value { value: SyntaxValueView::Features(fs) } => Ok(
                ValidEntryView::Features(fs),
            ),
            LexiconNodeView::Value { value: SyntaxValueView::Item(_) } => Err(Error::TypeConversion),
            LexiconNodeView::Moved { from } => Ok(ValidEntryView::Features(from)),
            LexiconNodeView::Lambda { from, to, project } => match Self::of_node(*from) {
                Ok(f) => Ok(ValidEntryView::Lambda { from: Box::new(f), to, project }),
                Err(e) => Err(e),
            },
        }
    }
}

impl ValidEntry {
    /// The content of the entry, with each feature set as a map.
    pub open spec fn content(&self) -> ValidEntryView
        decreases self,
    {
        match self {
            ValidEntry::Features(fs) => ValidEntryView::Features(fs@),
            ValidEntry::Lambda { from, to, project } => ValidEntryView::Lambda {
                from: Box::new((**from).content()),
                to: to@,
                project: *project,
            },
        }
    }

    /// The feature set that the entry results in.
    pub fn get_features_right(&self) -> (r: &FeatureSet)
        ensures
            r@ == self@.features_right(),
    {
        match self {
            ValidEntry::Features(fs) => fs,
            ValidEntry::Lambda { to, .. } => to,
        }
    }

    /// The feature set that the entry results in, to be changed in place.
    pub fn get_features_right_mut(&mut self) -> (r: &mut FeatureSet)
        ensures
            r@ == old(self)@.features_right(),
            final(self)@ == old(self)@.with_features_right(final(r)@),
    {
        match self {
            ValidEntry::Features(fs) => fs,
            ValidEntry::Lambda { to, .. } => to,
        }
    }

    /// The entry that is the plain feature set `fs`.
    pub fn from_features(fs: FeatureSet) -> (r: ValidEntry)
        ensures
            r@ == ValidEntryView::Features(fs@),
    {
        ValidEntry::Features(fs)
    }

    /// The entry as an unresolved slot: only a plain feature set is one.
    pub fn try_into_syntax_value(self) -> (r: Result<SyntaxValue, Error>)
        ensures
            match self@.as_syntax_value() {
                Ok(v) => r is Ok && r->Ok_0@ == v,
                Err(e) => r == Err::<SyntaxValue, Error>(e),
            },
    {
        match self {
            ValidEntry::Features(fs) => Ok(SyntaxValue::Features(fs)),
            ValidEntry::Lambda { .. } => Err(Error::TypeConversion),
        }
    }

    /// The applicable form of a lexicon node.
    pub fn try_from_node(node: LexiconNode) -> (r: Result<ValidEntry, Error>)
        ensures
            match ValidEntryView::of_node(node@) {
                Ok(v) => r is Ok && r->Ok_0@ == v,
                Err(e) => r == Err::<ValidEntry, Error>(e),
            },
        decreases node,
    {
        match node {
            LexiconNode::Value { value: SyntaxValue::Features(fs) } => Ok(ValidEntry::Features(fs)),
            LexiconNode::Value { value: SyntaxValue::Item(_) } => Err(Error::TypeConversion),
            LexiconNode::Moved { from } => Ok(ValidEntry::Features(from)),
            LexiconNode::Lambda { from, to, project } => {
                match Self::try_from_node(*from) {
                    Ok(f) => Ok(ValidEntry::Lambda { from: Box::new(f), to, project }),
                    Err(e) => Err(e),
                }
            },
        }
    }
}

impl View for ValidEntry {
    type V = ValidEntryView;

    open spec fn view(&self) -> ValidEntryView {
        self.content()
    }
}

} // verus!
