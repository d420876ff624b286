use crate::interner::{name_view, Interner};
use crate::syntax::{features_text, Feature, FeatureSet, Features, Key};
use vstd::prelude::*;

verus! {

/// What a node of a syntax tree holds: a lexical item or a feature set.
#[derive(Debug, PartialEq, Eq, Hash)]
pub enum SyntaxNode {
    Lexi(Key),
    Feat(FeatureSet),
}

/// The mathematical content of a [`SyntaxNode`].
pub enum SyntaxNodeView {
    Lexi(Key),
    Feat(Features),
}

impl SyntaxNodeView {
    /// Whether `self` is contained in `other`: a lexical item in itself
    /// only, a feature set in every feature set that holds its pairs.
    pub open spec fn subset_of(self, other: SyntaxNodeView) -> bool {
        match (self, other) {
            (SyntaxNodeView::Lexi(a), SyntaxNodeView::Lexi(b)) => a == b,
            (SyntaxNodeView::Feat(a), SyntaxNodeView::Feat(b)) => a.submap_of(b),
            _ => false,
        }
    }

    /// How the node is written: a lexical item by its name, a feature set
    /// by its pairs with a comma between each two. Nothing if a key has no
    /// name.
    pub open spec fn text<I: Interner>(self, names: &I) -> Option<Seq<char>> {
        match self {
            SyntaxNodeView::Lexi(k) => names.name_of(k),
            SyntaxNodeView::Feat(fs) => features_text(names, fs, ", "@),
        }
    }

    /// The feature set of the node, if it holds one.
    pub open spec fn features(self) -> Option<Features> {
        match self {
            SyntaxNodeView::Feat(fs) => Some(fs),
            SyntaxNodeView::Lexi(_) => None,
        }
    }
}

impl View for SyntaxNode {
    type V = SyntaxNodeView;

    open spec fn view(&self) -> SyntaxNodeView {
        match self {
            SyntaxNode::Lexi(k) => SyntaxNodeView::Lexi(*k),
            SyntaxNode::Feat(fs) => SyntaxNodeView::Feat(fs@),
        }
    }
}

impl Clone for SyntaxNode {
    fn clone(&self) -> (r: Self)
        ensures
            r@ == self@,
    {
        match self {
            SyntaxNode::Lexi(k) => SyntaxNode::Lexi(*k),
            SyntaxNode::Feat(fs) => SyntaxNode::Feat(fs.clone()),
        }
    }
}

impl SyntaxNode {
    /// The node that holds the lexical item `lstr`.
    pub fn from_lexical_str(lstr: Key) -> (r: SyntaxNode)
        ensures
            r@ == SyntaxNodeView::Lexi(lstr),
    {
        SyntaxNode::Lexi(lstr)
    }

    /// The node that holds the feature set `fset`.
    pub fn from_feature_set(fset: FeatureSet) -> (r: SyntaxNode)
        ensures
            r@ == SyntaxNodeView::Feat(fset@),
    {
        SyntaxNode::Feat(fset)
    }

    /// The node that holds the feature set of the one bare marker `fstr`.
    pub fn from_feature_str(fstr: Key) -> (r: SyntaxNode)
        ensures
            r@ == SyntaxNodeView::Feat(Features::empty().insert(fstr, None)),
    {
        let f = Feature::new_value(fstr);
        let fs = FeatureSet::from_feature(f);
        SyntaxNode::Feat(fs)
    }

    /// Whether `self` is contained in `other`.
    pub fn is_subset(&self, other: &SyntaxNode) -> (r: bool)
        ensures
            r == self@.subset_of(other@),
    {
        match (self, other) {
            (SyntaxNode::Lexi(a), SyntaxNode::Lexi(b)) => *a == *b,
            (SyntaxNode::Feat(a), SyntaxNode::Feat(b)) => a.is_subset(b),
            _ => false,
        }
    }

    /// The node as it is written; nothing if a key has no name.
    pub fn to_string<I: Interner>(&self, names: &I) -> (r: Option<String>)
        ensures
            name_view(r) == self@.text(names),
    {
        match self {
            SyntaxNode::Lexi(lexi) => names.resolve(*lexi),
            SyntaxNode::Feat(fset) => fset.to_string_with(names, ", "),
        }
    }
}

} // verus!
