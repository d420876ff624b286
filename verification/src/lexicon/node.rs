use crate::interner::{name_view, Interner};
use crate::syntax::{features_text, FeatureSet, Features, SyntaxValue, SyntaxValueView};
use vstd::string::StringExecFns;
use vstd::prelude::*;

verus! {

/// The payload of a lexicon entry.
#[allow(inconsistent_fields)]
#[derive(Debug, PartialEq, Eq, Hash, PartialOrd, Ord)]
pub enum LexiconNode {
    /// A terminal interpretation.
    Value { value: SyntaxValue },
    /// A function: consuming an argument that matches `from` yields `to`;
    /// with `project`, the argument's remaining features are handed on to
    /// the result.
    Lambda { from: Box<LexiconNode>, to: FeatureSet, project: bool },
    /// A feature set relocated from a dependency elsewhere in the derivation.
    Moved { from: FeatureSet },
}

/// The mathematical content of a [`LexiconNode`].
#[allow(inconsistent_fields)]
pub enum LexiconNodeView {
    Value { value: SyntaxValueView },
    Lambda { from: Box<LexiconNodeView>, to: Features, project: bool },
    Moved { from: Features },
}

impl LexiconNode {
    /// The content of the node, with each feature set as a map.
    pub open spec fn content(&self) -> LexiconNodeView
        decreases self,
    {
        match self {
            LexiconNode::Value { value } => LexiconNodeView::Value { value: value@ },
            LexiconNode::Lambda { from, to, project } => LexiconNodeView::Lambda {
                from: Box::new((**from).content()),
                to: to@,
                project: *project,
            },
            LexiconNode::Moved { from } => LexiconNodeView::Moved { from: from@ },
        }
    }
}

impl View for LexiconNode {
    type V = LexiconNodeView;

    open spec fn view(&self) -> LexiconNodeView {
        self.content()
    }
}

impl LexiconNodeView {
    /// How the node is written: a value as it is written; a function as
    /// its argument, `>` or, if it projects, `>>`, and its result, in
    /// brackets; a moved feature set in the brackets of `MOVED`. Nothing
    /// if a key has no name.
    pub open spec fn text<I: Interner>(self, names: &I) -> Option<Seq<char>>
        decreases self,
    {
        match self {
            LexiconNodeView::Value { value } => value.text(names),
            LexiconNodeView::Lambda { from, to, project } => match (
                from.text(names),
                features_text(names, to, "--"@),
            ) {
                (Some(from), Some(to)) => Some(
                    "("@ + from + (if project {
                        " >> "@
                    } else {
                        " > "@
                    }) + to + ")"@,
                ),
                _ => None,
            },
            LexiconNodeView::Moved { from } => match features_text(names, from, "--"@) {
                Some(from) => Some("MOVED("@ + from + ")"@),
                None => None,
            },
        }
    }
}

impl Clone for LexiconNode {
    fn clone(&self) -> (r: Self)
        ensures
            r@ == self@,
        decreases self,
    {
        match self {
            LexiconNode::Value { value } => LexiconNode::Value { value: value.clone() },
            LexiconNode::Lambda { from, to, project } => {
                let inner: LexiconNode = (**from).clone();
                LexiconNode::Lambda { from: Box::new(inner), to: to.clone(), project: *project }
            },
            LexiconNode::Moved { from } => LexiconNode::Moved { from: from.clone() },
        }
    }
}

impl LexiconNode {
    /// The node as it is written; nothing if a key has no name.
    pub fn to_string<I: Interner>(&self, names: &I) -> (r: Option<String>)
        ensures
            name_view(r) == self@.text(names),
        decreases self,
    {
        match self {
            LexiconNode::Value { value } => value.to_string(names),
            LexiconNode::Lambda { from, to, project } => {
                let from = (**from).to_string(names);
                let to = to.to_string(names);
                match (from, to) {
                    (Some(from), Some(to)) => {
                        let mut r = String::from_str("(");
                        r.append(from.as_str());
                        if *project {
                            r.append(" >> ");
                        } else {
                            r.append(" > ");
                        }
                        r.append(to.as_str());
                        r.append(")");
                        Some(r)
                    },
                    _ => None,
                }
            },
            LexiconNode::Moved { from } => match from.to_string(names) {
                Some(from) => {
                    let mut r = String::from_str("MOVED(");
                    r.append(from.as_str());
                    r.append(")");
                    Some(r)
                },
                None => None,
            },
        }
    }

    /// Whether the two nodes hold the same content.
    pub fn equals(&self, other: &LexiconNode) -> (r: bool)
        ensures
            r == (self@ == other@),
        decreases self,
    {
        match (self, other) {
            (LexiconNode::Value { value: a }, LexiconNode::Value { value: b }) => a.equals(b),
            (
                LexiconNode::Lambda { from: from_a, to: to_a, project: project_a },
                LexiconNode::Lambda { from: from_b, to: to_b, project: project_b },
            ) => *project_a == *project_b && to_a.equals(to_b) && (**from_a).equals(&**from_b),
            (LexiconNode::Moved { from: a }, LexiconNode::Moved { from: b }) => a.equals(b),
            _ => false,
        }
    }
}

} // verus!
