use super::error::Error;
use super::valid_entry::{ValidEntry, ValidEntryView};
use crate::interner::{name_view, Interner};
use crate::syntax::{features_text, FeatureSet, Features, SyntaxValue, SyntaxValueView};
use vstd::string::StringExecFns;
use vstd::prelude::*;

verus! {

/// One pending expectation of the frontier model.
#[derive(Debug, PartialEq, Eq)]
pub enum Node {
    /// A value is expected.
    Value { value: SyntaxValue },
    /// `from` awaits an interpretation that leads to `to`.
    Lambda { from: SyntaxValue, to: Box<Node> },
    /// What is resolved next hands its features, but for `ignore`, to the
    /// expectation below.
    Projection { ignore: FeatureSet },
}

/// The mathematical content of a [`Node`].
pub enum NodeView {
    Value { value: SyntaxValueView },
    Lambda { from: SyntaxValueView, to: Box<NodeView> },
    Projection { ignore: Features },
}

impl NodeView {
    /// The feature set on the left of the expectation: the expected value,
    /// or what awaits interpretation.
    pub open spec fn features_left(self) -> Option<Features> {
        match self {
            NodeView::Value { value: SyntaxValueView::Features(fs) } => Some(fs),
            NodeView::Lambda { from: SyntaxValueView::Features(fs), .. } => Some(fs),
            _ => None,
        }
    }

    /// The expectation with `fs` as the feature set on its left.
    pub open spec fn with_features_left(self, fs: Features) -> NodeView {
        match self {
            NodeView::Value { value: SyntaxValueView::Features(_) } => NodeView::Value {
                value: SyntaxValueView::Features(fs),
            },
            NodeView::Lambda { from: SyntaxValueView::Features(_), to } => NodeView::Lambda {
                from: SyntaxValueView::Features(fs),
                to,
            },
            _ => self,
        }
    }

    /// How the expectation is written: a value as it is written; an
    /// application as a lambda from its slot to what it leads to; a marker
    /// with what it ignores. Nothing if a key has no name.
    pub open spec fn text<I: Interner>(self, names: &I) -> Option<Seq<char>>
        decreases self,
    {
        match self {
            NodeView::Value { value } => value.text(names),
            NodeView::Lambda { from, to } => match (from.text(names), to.text(names)) {
                (Some(from), Some(to)) => Some("\u{3bb}("@ + from + " -> "@ + to + ")"@),
                _ => None,
            },
            NodeView::Projection { ignore } => match features_text(names, ignore, "--"@) {
                Some(ignore) => Some(">>(ignore: "@ + ignore + ")"@),
                None => None,
            },
        }
    }

    /// The expectation that an applicable entry stands for: a plain
    /// feature set is expected as a value; a function awaits its argument,
    /// which must be a plain feature set.
    pub open spec fn of_entry(entry: ValidEntryView) -> Result<NodeView, Error> {
        match entry {
            ValidEntryView::Features(fs) => Ok(NodeView::Value { value: SyntaxValueView::Features(fs) }),
            ValidEntryView::Lambda { from, to, .. } => match from.as_syntax_value() {
                Ok(from) => Ok(
                    NodeView::Lambda {
                        from,
                        to: Box::new(NodeView::Value { value: SyntaxValueView::Features(to) }),
                    },
                ),
                Err(e) => Err(e),
            },
        }
    }
}

impl Node {
    /// The content of the expectation, with each feature set as a map.
    pub open spec fn content(&self) -> NodeView
        decreases self,
    {
        match self {
            Node::Value { value } => NodeView::Value { value: value@ },
            Node::Lambda { from, to } => NodeView::Lambda {
                from: from@,
                to: Box::new((**to).content()),
            },
            Node::Projection { ignore } => NodeView::Projection { ignore: ignore@ },
        }
    }

    /// The feature set on the left of the expectation, to be changed in
    /// place.
    pub fn get_features_left_mut(&mut self) -> (r: Option<&mut FeatureSet>)
        ensures
            match r {
                Some(fs) => old(self)@.features_left() == Some(fs@) && final(self)@ == old(
                    self,
                )@.with_features_left(final(fs)@),
                None => old(self)@.features_left() is None && final(self)@ == old(self)@,
            },
    {
        match self {
            Node::Value { value: SyntaxValue::Features(fs) } => Some(fs),
            Node::Lambda { from: SyntaxValue::Features(fs), .. } => Some(fs),
            _ => None,
        }
    }

    /// The expectation as it is written; nothing if a key has no name.
    pub fn to_string<I: Interner>(&self, names: &I) -> (r: Option<String>)
        ensures
            name_view(r) == self@.text(names),
        decreases self,
    {
        match self {
            Node::Value { value } => value.to_string(names),
            Node::Lambda { from, to } => {
                let from = from.to_string(names);
                let to = (**to).to_string(names);
                match (from, to) {
                    (Some(from), Some(to)) => {
                        let mut r = String::from_str("\u{3bb}(");
                        r.append(from.as_str());
                        r.append(" -> ");
                        r.append(to.as_str());
                        r.append(")");
                        Some(r)
                    },
                    _ => None,
                }
            },
            Node::Projection { ignore } => match ignore.to_string(names) {
                Some(ignore) => {
                    let mut r = String::from_str(">>(ignore: ");
                    r.append(ignore.as_str());
                    r.append(")");
                    Some(r)
                },
                None => None,
            },
        }
    }

    /// The expectation of the feature set `fs` as a value.
    pub fn from_features(fs: FeatureSet) -> (r: Node)
        ensures
            r@ == (NodeView::Value { value: SyntaxValueView::Features(fs@) }),
    {
        Node::Value { value: SyntaxValue::Features(fs) }
    }

    /// The expectation that an applicable entry stands for.
    pub fn try_from_entry(value: ValidEntry) -> (r: Result<Node, Error>)
        ensures
            match NodeView::of_entry(value@) {
                Ok(v) => r is Ok && r->Ok_0@ == v,
                Err(e) => r == Err::<Node, Error>(e),
            },
    {
        match value {
            ValidEntry::Features(fs) => Ok(Node::from_features(fs)),
            ValidEntry::Lambda { from, to, .. } => {
                match (*from).try_into_syntax_value() {
                    Ok(from) => Ok(Node::Lambda { from, to: Box::new(Node::from_features(to)) }),
                    Err(e) => Err(e),
                }
            },
        }
    }
}

impl View for Node {
    type V = NodeView;

    open spec fn view(&self) -> NodeView {
        self.content()
    }
}

impl Clone for Node {
    fn clone(&self) -> (r: Self)
        ensures
            r@ == self@,
        decreases self,
    {
        match self {
            Node::Value { value } => Node::Value { value: value.clone() },
            Node::Lambda { from, to } => {
                let inner: Node = (**to).clone();
                Node::Lambda { from: from.clone(), to: Box::new(inner) }
            },
            Node::Projection { ignore } => Node::Projection { ignore: ignore.clone() },
        }
    }
}

} // verus!
