use super::node::{LexiconNode, LexiconNodeView};
use crate::interner::{name_view, Interner};
use crate::syntax::{FeatureSet, Features};
use vstd::string::StringExecFns;
use vstd::prelude::*;

verus! {

/// What a lexicon query returns.
#[derive(Debug, PartialEq, Eq, Hash)]
pub enum LexiconEntry {
    /// An interpretation of a token.
    Lexical(LexiconNode),
    /// An interpretation triggered by features of the query. `project`, if
    /// present, holds the features of the query that the trigger does not
    /// cover.
    Functional { to: LexiconNode, project: Option<FeatureSet> },
}

/// The mathematical content of a [`LexiconEntry`].
pub enum LexiconEntryView {
    Lexical(LexiconNodeView),
    Functional { to: LexiconNodeView, project: Option<Features> },
}

/// The content of an optional feature set.
pub open spec fn option_view(o: Option<FeatureSet>) -> Option<Features> {
    match o {
        Some(fs) => Some(fs@),
        None => None,
    }
}

impl View for LexiconEntry {
    type V = LexiconEntryView;

    open spec fn view(&self) -> LexiconEntryView {
        match self {
            LexiconEntry::Lexical(node) => LexiconEntryView::Lexical(node@),
            LexiconEntry::Functional { to, project } => LexiconEntryView::Functional {
                to: to@,
                project: option_view(*project),
            },
        }
    }
}

impl LexiconEntryView {
    /// How the entry is written: as the interpretation of a token, or of
    /// features. Nothing if a key has no name.
    pub open spec fn text<I: Interner>(self, names: &I) -> Option<Seq<char>> {
        match self {
            LexiconEntryView::Lexical(node) => match node.text(names) {
                Some(node) => Some("token = "@ + node),
                None => None,
            },
            LexiconEntryView::Functional { to, .. } => match to.text(names) {
                Some(to) => Some("interpretation = "@ + to),
                None => None,
            },
        }
    }
}

impl Clone for LexiconEntry {
    fn clone(&self) -> (r: Self)
        ensures
            r@ == self@,
    {
        match self {
            LexiconEntry::Lexical(node) => LexiconEntry::Lexical(node.clone()),
            LexiconEntry::Functional { to, project } => {
                let project = match project {
                    Some(fs) => Some(fs.clone()),
                    None => None,
                };
                LexiconEntry::Functional { to: to.clone(), project }
            },
        }
    }
}

impl LexiconEntry {
    /// The entry as it is written; nothing if a key has no name.
    pub fn to_string<I: Interner>(&self, names: &I) -> (r: Option<String>)
        ensures
            name_view(r) == self@.text(names),
    {
        match self {
            LexiconEntry::Lexical(node) => match node.to_string(names) {
                Some(node) => {
                    let mut r = String::from_str("token = ");
                    r.append(node.as_str());
                    Some(r)
                },
                None => None,
            },
            LexiconEntry::Functional { to, .. } => match to.to_string(names) {
                Some(to) => {
                    let mut r = String::from_str("interpretation = ");
                    r.append(to.as_str());
                    Some(r)
                },
                None => None,
            },
        }
    }

    /// Whether the two entries hold the same content.
    pub fn equals(&self, other: &LexiconEntry) -> (r: bool)
        ensures
            r == (self@ == other@),
    {
        match (self, other) {
            (LexiconEntry::Lexical(a), LexiconEntry::Lexical(b)) => a.equals(b),
            (
                LexiconEntry::Functional { to: to_a, project: project_a },
                LexiconEntry::Functional { to: to_b, project: project_b },
            ) => {
                let same = match (project_a, project_b) {
                    (Some(a), Some(b)) => a.equals(b),
                    (None, None) => true,
                    _ => false,
                };
                same && to_a.equals(to_b)
            },
            _ => false,
        }
    }
}

} // verus!
