use crate::direction::Direction;
use crate::interner::{name_view, Interner};
use crate::syntax::{features_text, FeatureSet, Features};
use vstd::prelude::*;
use vstd::string::StringExecFns;

verus! {

/// What a lexicon gives for a syntax node: a feature set, or a function
/// from one feature set to another that hands features on from the left or
/// from the right.
#[derive(Debug, PartialEq, Eq)]
pub enum Interpretation {
    Val(FeatureSet),
    Lambda { from: FeatureSet, to: FeatureSet, projection: Direction },
}

/// The mathematical content of an [`Interpretation`].
pub enum InterpretationView {
    Val(Features),
    Lambda { from: Features, to: Features, projection: Direction },
}

impl InterpretationView {
    /// How the interpretation is written: a function as its argument, `>`
    /// for the left or `>>` for the right, and its result. Nothing if a
    /// key has no name.
    pub open spec fn text<I: Interner>(self, names: &I) -> Option<Seq<char>> {
        match self {
            InterpretationView::Val(fset) => features_text(names, fset, ", "@),
            InterpretationView::Lambda { from, to, projection } => match (
                features_text(names, from, ", "@),
                features_text(names, to, ", "@),
            ) {
                (Some(from), Some(to)) => Some(
                    from + " "@ + (match projection {
                        Direction::Left => ">"@,
                        Direction::Right => ">>"@,
                    }) + " "@ + to,
                ),
                _ => None,
            },
        }
    }
}

impl View for Interpretation {
    type V = InterpretationView;

    open spec fn view(&self) -> InterpretationView {
        match self {
            Interpretation::Val(fset) => InterpretationView::Val(fset@),
            Interpretation::Lambda { from, to, projection } => InterpretationView::Lambda {
                from: from@,
                to: to@,
                projection: *projection,
            },
        }
    }
}

impl Clone for Interpretation {
    fn clone(&self) -> (r: Self)
        ensures
            r@ == self@,
    {
        match self {
            Interpretation::Val(fset) => Interpretation::Val(fset.clone()),
            Interpretation::Lambda { from, to, projection } => Interpretation::Lambda {
                from: from.clone(),
                to: to.clone(),
                projection: *projection,
            },
        }
    }
}

impl Interpretation {
    /// The interpretation as it is written; nothing if a key has no name.
    pub fn to_string<I: Interner>(&self, names: &I) -> (r: Option<String>)
        ensures
            name_view(r) == self@.text(names),
    {
        match self {
            Interpretation::Val(fset) => fset.to_string_with(names, ", "),
            Interpretation::Lambda { from, to, projection } => {
                let from = from.to_string_with(names, ", ");
                let to = to.to_string_with(names, ", ");
                match (from, to) {
                    (Some(from), Some(to)) => {
                        let mut r = from;
                        r.append(" ");
                        match projection {
                            Direction::Left => r.append(">"),
                            Direction::Right => r.append(">>"),
                        }
                        r.append(" ");
                        r.append(to.as_str());
                        Some(r)
                    },
                    _ => None,
                }
            },
        }
    }
}

} // verus!
