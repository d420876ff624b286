use super::error::Error;
use crate::lexicon::{LexiconEntry, LexiconEntryView};
use crate::syntax::{FeatureSet, Features, Key, SyntaxValue, SyntaxValueView};
use vstd::prelude::*;

verus! {

/// A derivation in progress: a state machine that takes tokens and lexicon
/// entries in turn. Each step is a function of the state's content; a step
/// that fails leaves a state that is to be discarded.
pub trait CognitiveModel: Sized + View {
    /// The content of a model that is to interpret a sentence as `target`.
    spec fn init_spec(target: Features) -> Self::V;

    /// Whether the derivation is complete.
    spec fn understood_spec(state: Self::V) -> bool;

    /// Whether the model takes a new token now.
    spec fn demand_spec(state: Self::V) -> bool;

    /// The content after the token `token`, and whether it was taken.
    spec fn receive_spec(state: Self::V, token: Key) -> (Self::V, Result<(), Error>);

    /// What the model wants interpreted, if anything.
    spec fn wonder_spec(state: Self::V) -> Option<SyntaxValueView>;

    /// The content after `entry` was applied to what the model wants
    /// interpreted, and whether it applied.
    spec fn decide_spec(state: Self::V, entry: LexiconEntryView) -> (Self::V, Result<(), Error>);

    /// A new model for interpreting a sentence as `target`.
    fn init(target: FeatureSet) -> (r: Self)
        ensures
            r@ == Self::init_spec(target@),
    ;

    /// Whether the derivation is complete.
    fn understood(&self) -> (r: bool)
        ensures
            r == Self::understood_spec(self@),
    ;

    /// Whether the model takes a new token now.
    fn demand(&self) -> (r: bool)
        ensures
            r == Self::demand_spec(self@),
    ;

    /// Takes a new token.
    fn receive(&mut self, token: Key) -> (r: Result<(), Error>)
        ensures
            (final(self)@, r) == Self::receive_spec(old(self)@, token),
    ;

    /// What the model wants interpreted, if anything.
    fn wonder(&self) -> (r: Option<&SyntaxValue>)
        ensures
            match Self::wonder_spec(self@) {
                Some(v) => r is Some && r->0@ == v,
                None => r is None,
            },
    ;

    /// Applies `entry` as an interpretation of what `wonder` returns.
    fn decide(&mut self, entry: LexiconEntry) -> (r: Result<(), Error>)
        ensures
            (final(self)@, r) == Self::decide_spec(old(self)@, entry@),
    ;

    /// A model with the same content, independent of this one.
    fn fork(&self) -> (r: Self)
        ensures
            r@ == self@,
    ;
}

} // verus!
