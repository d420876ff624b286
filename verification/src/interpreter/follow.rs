use super::action::{derivation, Action, ActionView};
use super::error::Error;
use crate::cognitive::CognitiveModel;
use crate::interner::Interner;
use crate::syntax::{FeatureSet, Features, Key};
use vstd::prelude::*;

verus! {

/// The step that `action` asks of a model in the state `state`.
pub open spec fn act<C: CognitiveModel>(state: C::V, action: ActionView) -> (
    C::V,
    Result<(), crate::cognitive::Error>,
) {
    match action {
        ActionView::AddToken(token) => C::receive_spec(state, token),
        ActionView::ApplyEntry(entry) => C::decide_spec(state, entry),
    }
}

/// The state that a model in the state `state` is in after the actions
/// `actions`, applied in order up to the first that fails.
pub open spec fn replay<C: CognitiveModel>(state: C::V, actions: Seq<ActionView>) -> (
    C::V,
    Result<(), crate::cognitive::Error>,
)
    decreases actions.len(),
{
    if actions.len() == 0 {
        (state, Ok(()))
    } else {
        let (next, r) = act::<C>(state, actions[0]);
        if r is Err {
            (next, r)
        } else {
            replay::<C>(next, actions.drop_first())
        }
    }
}

/// The feature set that holds the bare category `target`.
pub open spec fn target_features(target: Key) -> Features {
    Features::empty().insert(target, None)
}

/// What a replay of `actions` on a new model for the target category
/// `target` gives: the model it ends in, or the error of the first action
/// that fails.
pub open spec fn followed<C: CognitiveModel>(target: Key, actions: Seq<ActionView>, r: Result<C, Error>) -> bool {
    match replay::<C>(C::init_spec(target_features(target)), actions).1 {
        Ok(_) => r is Ok && r->Ok_0@ == replay::<C>(C::init_spec(target_features(target)), actions).0,
        Err(e) => r == Err::<C, Error>(Error::Cognitive(e)),
    }
}

/// Applies the actions `actions`, in order, to a new model for the target
/// category named `target`. The replay fails if the name cannot be made a
/// key, and with the first action that fails.
pub fn follow<C: CognitiveModel, I: Interner>(interner: &I, target: &str, actions: Vec<Action>) -> (r:
    Result<C, Error>)
    ensures
        match interner.key_of(target@) {
            Some(key) => followed::<C>(key, derivation(actions@), r),
            None => r == Err::<C, Error>(Error::FromStr),
        },
{
    match interner.intern(target) {
        Some(key) => follow_key(key, actions),
        None => Err(Error::FromStr),
    }
}

/// Applies the actions `actions`, in order, to a new model for the target
/// category `target`. The first action that fails ends the replay with its
/// error.
pub fn follow_key<C: CognitiveModel>(target: Key, actions: Vec<Action>) -> (r: Result<C, Error>)
    ensures
        followed::<C>(target, derivation(actions@), r),
{
    let mut cogmodel = C::init(FeatureSet::from_category(target));
    let ghost all = derivation(actions@);
    let ghost start = cogmodel@;
    let mut i: usize = 0;
    assert(all.skip(0) =~= all);
    while i < actions.len()
        invariant
            i <= actions.len(),
            all == derivation(actions@),
            start == C::init_spec(target_features(target)),
            replay::<C>(start, all) == replay::<C>(cogmodel@, all.skip(i as int)),
        decreases actions.len() - i,
    {
        proof {
            assert(all.skip(i as int)[0] == actions@[i as int]@);
            assert(all.skip(i as int).drop_first() =~= all.skip(i + 1));
        }
        let r = match actions[i].clone() {
            Action::AddToken(token) => cogmodel.receive(token),
            Action::ApplyEntry(entry) => cogmodel.decide(entry),
        };
        match r {
            Ok(()) => {},
            Err(e) => {
                return Err(Error::Cognitive(e));
            },
        }
        i = i + 1;
    }
    assert(all.skip(i as int).len() == 0);
    Ok(cogmodel)
}

} // verus!
