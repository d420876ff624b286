use crate::interner::{name_view, Interner};
use crate::lexicon::{LexiconEntry, LexiconEntryView};
use vstd::string::StringExecFns;
use crate::syntax::Key;
use vstd::prelude::*;

verus! {

/// One step of a derivation.
#[derive(Debug, PartialEq, Eq)]
pub enum Action {
    /// The next token of the text is taken.
    AddToken(Key),
    /// A lexicon entry is applied to what awaits interpretation.
    ApplyEntry(LexiconEntry),
}

/// The mathematical content of an [`Action`].
pub enum ActionView {
    AddToken(Key),
    ApplyEntry(LexiconEntryView),
}

impl View for Action {
    type V = ActionView;

    open spec fn view(&self) -> ActionView {
        match self {
            Action::AddToken(token) => ActionView::AddToken(*token),
            Action::ApplyEntry(entry) => ActionView::ApplyEntry(entry@),
        }
    }
}

impl ActionView {
    /// How the action is written. Nothing if a key has no name.
    pub open spec fn text<I: Interner>(self, names: &I) -> Option<Seq<char>> {
        match self {
            ActionView::AddToken(token) => match names.name_of(token) {
                Some(token) => Some("Add token ["@ + token + "]"@),
                None => None,
            },
            ActionView::ApplyEntry(entry) => match entry.text(names) {
                Some(entry) => Some("Apply entry ["@ + entry + "]"@),
                None => None,
            },
        }
    }
}

impl Action {
    /// Whether the two actions have the same content.
    pub fn equals(&self, other: &Action) -> (r: bool)
        ensures
            r == (self@ == other@),
    {
        match (self, other) {
            (Action::AddToken(a), Action::AddToken(b)) => *a == *b,
            (Action::ApplyEntry(a), Action::ApplyEntry(b)) => a.equals(b),
            _ => false,
        }
    }

    /// The action as it is written; nothing if a key has no name.
    pub fn to_string<I: Interner>(&self, names: &I) -> (r: Option<String>)
        ensures
            name_view(r) == self@.text(names),
    {
        match self {
            Action::AddToken(token) => match names.resolve(*token) {
                Some(token) => {
                    let mut r = String::from_str("Add token [");
                    r.append(token.as_str());
                    r.append("]");
                    Some(r)
                },
                None => None,
            },
            Action::ApplyEntry(entry) => match entry.to_string(names) {
                Some(entry) => {
                    let mut r = String::from_str("Apply entry [");
                    r.append(entry.as_str());
                    r.append("]");
                    Some(r)
                },
                None => None,
            },
        }
    }
}

impl Clone for Action {
    fn clone(&self) -> (r: Self)
        ensures
            r@ == self@,
    {
        match self {
            Action::AddToken(token) => Action::AddToken(*token),
            Action::ApplyEntry(entry) => Action::ApplyEntry(entry.clone()),
        }
    }
}

/// The content of a derivation: of each action in turn.
pub open spec fn derivation(actions: Seq<Action>) -> Seq<ActionView> {
    actions.map_values(|a: Action| a@)
}

/// Whether the two lists of actions are the same derivation.
pub fn same_derivation(a: &Vec<Action>, b: &Vec<Action>) -> (r: bool)
    ensures
        r == (derivation(a@) == derivation(b@)),
{
    if a.len() != b.len() {
        assert(derivation(a@).len() != derivation(b@).len());
        return false;
    }
    let mut i: usize = 0;
    while i < a.len()
        invariant
            i <= a.len(),
            a.len() == b.len(),
            forall|j: int| 0 <= j < i ==> (#[trigger] a@[j])@ == b@[j]@,
        decreases a.len() - i,
    {
        if !a[i].equals(&b[i]) {
            assert(derivation(a@)[i as int] != derivation(b@)[i as int]);
            return false;
        }
        i = i + 1;
    }
    assert(derivation(a@) =~= derivation(b@));
    true
}

/// A copy of the derivation `actions`.
pub fn copy_actions(actions: &Vec<Action>) -> (r: Vec<Action>)
    ensures
        derivation(r@) == derivation(actions@),
{
    let mut r: Vec<Action> = Vec::new();
    let mut i: usize = 0;
    while i < actions.len()
        invariant
            i <= actions.len(),
            r@.len() == i,
            forall|j: int| 0 <= j < i ==> (#[trigger] r@[j])@ == actions@[j]@,
        decreases actions.len() - i,
    {
        r.push(actions[i].clone());
        i = i + 1;
    }
    assert(derivation(r@) =~= derivation(actions@));
    r
}

} // verus!
