use super::action::{copy_actions, derivation, same_derivation, Action, ActionView};
use super::error::Error;
use super::follow::{replay, target_features};
use crate::cognitive::CognitiveModel;
use crate::dialect::Dialect;
use crate::interner::Interner;
use crate::lexicon::{
    answers, distinct_entries, offered, Lexicon, LexiconEntry, LexiconEntryView, LexiconNodeView,
};
use crate::syntax::{FeatureSet, Key, SyntaxValueView};
use crate::tokenizer::{candidate, Tokenizer};
use vstd::prelude::*;

verus! {

/// A derivation: the actions taken, in order.
pub type Actions = Vec<Action>;

/// What a lexicon stores: pairs of a trigger and a node.
pub type Contents = Set<(SyntaxValueView, LexiconNodeView)>;

/// Whether `actions` is a derivation that takes a model from the state
/// `state`, with the text `text` before it, to completion with the text
/// used up. The derivation ends where first the text is used up and the
/// model is complete. Before that, a token is taken only if the model
/// demands one and the tokenizer offers it as the next token, and the rest
/// of the derivation goes on with what the token leaves; an entry is
/// applied only if it answers what the model wants interpreted. No step
/// fails.
pub open spec fn derives<C: CognitiveModel, T: Tokenizer>(
    contents: Contents,
    tokenizer: &T,
    state: C::V,
    text: Seq<char>,
    actions: Seq<ActionView>,
) -> bool
    decreases actions.len(),
{
    if text.len() == 0 && C::understood_spec(state) {
        actions.len() == 0
    } else if actions.len() == 0 {
        false
    } else {
        match actions[0] {
            ActionView::AddToken(token) => {
                &&& C::demand_spec(state)
                &&& C::receive_spec(state, token).1 is Ok
                &&& exists|rest: Seq<char>| #[trigger]
                    tokenizer.offers(text, token, rest) && derives::<C, T>(
                        contents,
                        tokenizer,
                        C::receive_spec(state, token).0,
                        rest,
                        actions.drop_first(),
                    )
            },
            ActionView::ApplyEntry(entry) => {
                &&& C::wonder_spec(state) is Some
                &&& answers(contents, C::wonder_spec(state)->0, entry)
                &&& C::decide_spec(state, entry).1 is Ok
                &&& derives::<C, T>(
                    contents,
                    tokenizer,
                    C::decide_spec(state, entry).0,
                    text,
                    actions.drop_first(),
                )
            },
        }
    }
}

/// Whether the list `r` holds the derivation `d`.
pub open spec fn found(r: Seq<Actions>, d: Seq<ActionView>) -> bool {
    exists|i: int| 0 <= i < r.len() && derivation((#[trigger] r[i])@) == d
}

/// Whether no derivation occurs twice in the list `r`.
pub open spec fn distinct_derivations(r: Seq<Actions>) -> bool {
    forall|i: int, j: int|
        0 <= i < j < r.len() ==> derivation((#[trigger] r[i])@) != derivation((#[trigger] r[j])@)
}

/// Whether `x` is the derivation `prefix` followed by at most `fuel`
/// further actions that take a model from `state`, with the text `text`
/// before it, to completion.
pub open spec fn reaches<C: CognitiveModel, T: Tokenizer>(
    contents: Contents,
    tokenizer: &T,
    prefix: Seq<ActionView>,
    x: Seq<ActionView>,
    fuel: nat,
    state: C::V,
    text: Seq<char>,
) -> bool {
    &&& x.len() >= prefix.len()
    &&& x.take(prefix.len() as int) == prefix
    &&& x.len() - prefix.len() <= fuel
    &&& derives::<C, T>(contents, tokenizer, state, text, x.skip(prefix.len() as int))
}

/// Whether `x` goes on from `prefix` with the token `token`, which is
/// taken, and reaches completion from there on the text `rest`.
pub open spec fn via_candidate<C: CognitiveModel, T: Tokenizer>(
    contents: Contents,
    tokenizer: &T,
    prefix: Seq<ActionView>,
    x: Seq<ActionView>,
    fuel: nat,
    state: C::V,
    token: Key,
    rest: Seq<char>,
) -> bool {
    C::receive_spec(state, token).1 is Ok && reaches::<C, T>(
        contents,
        tokenizer,
        prefix.push(ActionView::AddToken(token)),
        x,
        (fuel - 1) as nat,
        C::receive_spec(state, token).0,
        rest,
    )
}

/// Whether `x` goes on from `prefix` with one of the first `upto`
/// candidates of `cands`.
pub open spec fn via_token<C: CognitiveModel, T: Tokenizer>(
    contents: Contents,
    tokenizer: &T,
    prefix: Seq<ActionView>,
    x: Seq<ActionView>,
    fuel: nat,
    state: C::V,
    cands: Seq<(Key, &str)>,
    upto: int,
) -> bool {
    exists|j: int|
        0 <= j < upto && via_candidate::<C, T>(
            contents,
            tokenizer,
            prefix,
            x,
            fuel,
            state,
            (#[trigger] cands[j]).0,
            cands[j].1@,
        )
}

/// Whether `x` goes on from `prefix` with the entry `entry`, which
/// applies, and reaches completion from there on the same text.
pub open spec fn via_answer<C: CognitiveModel, T: Tokenizer>(
    contents: Contents,
    tokenizer: &T,
    prefix: Seq<ActionView>,
    x: Seq<ActionView>,
    fuel: nat,
    state: C::V,
    text: Seq<char>,
    entry: LexiconEntryView,
) -> bool {
    C::decide_spec(state, entry).1 is Ok && reaches::<C, T>(
        contents,
        tokenizer,
        prefix.push(ActionView::ApplyEntry(entry)),
        x,
        (fuel - 1) as nat,
        C::decide_spec(state, entry).0,
        text,
    )
}

/// Whether `x` goes on from `prefix` with one of the first `upto` entries
/// of `entries`.
pub open spec fn via_entry<C: CognitiveModel, T: Tokenizer>(
    contents: Contents,
    tokenizer: &T,
    prefix: Seq<ActionView>,
    x: Seq<ActionView>,
    fuel: nat,
    state: C::V,
    text: Seq<char>,
    entries: Seq<LexiconEntry>,
    upto: int,
) -> bool {
    exists|j: int|
        0 <= j < upto && via_answer::<C, T>(
            contents,
            tokenizer,
            prefix,
            x,
            fuel,
            state,
            text,
            (#[trigger] entries[j])@,
        )
}

/// A derivation that goes on from `prefix` with the action `a` goes on
/// from `prefix` itself, with `a` as its next action.
pub proof fn lemma_longer_prefix(prefix: Seq<ActionView>, a: ActionView, x: Seq<ActionView>)
    requires
        x.len() > prefix.len(),
    ensures
        x.take(prefix.len() as int + 1) == prefix.push(a) <==> x.take(prefix.len() as int) == prefix
            && x[prefix.len() as int] == a,
        x.skip(prefix.len() as int).len() > 0,
        x.skip(prefix.len() as int)[0] == x[prefix.len() as int],
        x.skip(prefix.len() as int).drop_first() == x.skip(prefix.len() as int + 1),
{
    let n = prefix.len() as int;
    if x.take(n + 1) == prefix.push(a) {
        assert(x.take(n) =~= x.take(n + 1).take(n));
        assert(prefix.push(a).take(n) =~= prefix);
        assert(x.take(n + 1)[n] == a);
    }
    if x.take(n) == prefix && x[n] == a {
        assert(x.take(n + 1) =~= prefix.push(a));
    }
    assert(x.skip(n).drop_first() =~= x.skip(n + 1));
}

/// Where the derivation is not at its end and may go on, it goes on with a
/// token that the tokenizer offers, or with an entry that answers what the
/// model wants interpreted.
pub proof fn lemma_branches<C: CognitiveModel, T: Tokenizer>(
    contents: Contents,
    tokenizer: &T,
    prefix: Seq<ActionView>,
    x: Seq<ActionView>,
    fuel: nat,
    state: C::V,
    text: Seq<char>,
    cands: Seq<(Key, &str)>,
    entries: Seq<LexiconEntry>,
)
    requires
        !(text.len() == 0 && C::understood_spec(state)),
        fuel > 0,
        C::demand_spec(state) ==> forall|token: Key, rest: Seq<char>| #[trigger]
            candidate(cands, token, rest) <==> tokenizer.offers(text, token, rest),
        C::wonder_spec(state) is Some ==> forall|e: LexiconEntryView| #[trigger]
            offered(entries, e) <==> answers(contents, C::wonder_spec(state)->0, e),
    ensures
        reaches::<C, T>(contents, tokenizer, prefix, x, fuel, state, text) <==> (C::demand_spec(state)
            && via_token::<C, T>(contents, tokenizer, prefix, x, fuel, state, cands, cands.len() as int))
            || (C::wonder_spec(state) is Some && via_entry::<C, T>(
            contents,
            tokenizer,
            prefix,
            x,
            fuel,
            state,
            text,
            entries,
            entries.len() as int,
        )),
{
    let n = prefix.len() as int;
    let d = x.skip(n);
    if reaches::<C, T>(contents, tokenizer, prefix, x, fuel, state, text) {
        assert(d.len() > 0);
        lemma_longer_prefix(prefix, d[0], x);
        match d[0] {
            ActionView::AddToken(token) => {
                let rest = choose|rest: Seq<char>| #[trigger]
                    tokenizer.offers(text, token, rest) && derives::<C, T>(
                        contents,
                        tokenizer,
                        C::receive_spec(state, token).0,
                        rest,
                        d.drop_first(),
                    );
                assert(candidate(cands, token, rest));
                let j = choose|j: int|
                    0 <= j < cands.len() && (#[trigger] cands[j]).0 == token && cands[j].1@ == rest;
                assert(via_candidate::<C, T>(
                    contents,
                    tokenizer,
                    prefix,
                    x,
                    fuel,
                    state,
                    cands[j].0,
                    cands[j].1@,
                ));
            },
            ActionView::ApplyEntry(entry) => {
                assert(offered(entries, entry));
                let j = choose|j: int| 0 <= j < entries.len() && (#[trigger] entries[j])@ == entry;
                assert(via_answer::<C, T>(
                    contents,
                    tokenizer,
                    prefix,
                    x,
                    fuel,
                    state,
                    text,
                    entries[j]@,
                ));
            },
        }
    }
    if C::demand_spec(state) && via_token::<C, T>(
        contents,
        tokenizer,
        prefix,
        x,
        fuel,
        state,
        cands,
        cands.len() as int,
    ) {
        let j = choose|j: int|
            0 <= j < cands.len() && via_candidate::<C, T>(
                contents,
                tokenizer,
                prefix,
                x,
                fuel,
                state,
                (#[trigger] cands[j]).0,
                cands[j].1@,
            );
        let token = cands[j].0;
        let rest = cands[j].1@;
        lemma_longer_prefix(prefix, ActionView::AddToken(token), x);
        assert(candidate(cands, token, rest));
        assert(tokenizer.offers(text, token, rest));
        assert(d[0] == ActionView::AddToken(token));
    }
    if C::wonder_spec(state) is Some && via_entry::<C, T>(
        contents,
        tokenizer,
        prefix,
        x,
        fuel,
        state,
        text,
        entries,
        entries.len() as int,
    ) {
        let j = choose|j: int|
            0 <= j < entries.len() && via_answer::<C, T>(
                contents,
                tokenizer,
                prefix,
                x,
                fuel,
                state,
                text,
                (#[trigger] entries[j])@,
            );
        let entry = entries[j]@;
        lemma_longer_prefix(prefix, ActionView::ApplyEntry(entry), x);
        assert(offered(entries, entry));
        assert(d[0] == ActionView::ApplyEntry(entry));
    }
}

/// A derivation that the search finds, replayed from the state that the
/// search started in, fails at no step and ends in a complete model.
pub proof fn lemma_round_trip<C: CognitiveModel, T: Tokenizer>(
    contents: Contents,
    tokenizer: &T,
    state: C::V,
    text: Seq<char>,
    actions: Seq<ActionView>,
)
    requires
        derives::<C, T>(contents, tokenizer, state, text, actions),
    ensures
        replay::<C>(state, actions).1 is Ok,
        C::understood_spec(replay::<C>(state, actions).0),
    decreases actions.len(),
{
    if actions.len() > 0 {
        match actions[0] {
            ActionView::AddToken(token) => {
                let rest = choose|rest: Seq<char>| #[trigger]
                    tokenizer.offers(text, token, rest) && derives::<C, T>(
                        contents,
                        tokenizer,
                        C::receive_spec(state, token).0,
                        rest,
                        actions.drop_first(),
                    );
                lemma_round_trip::<C, T>(
                    contents,
                    tokenizer,
                    C::receive_spec(state, token).0,
                    rest,
                    actions.drop_first(),
                );
            },
            ActionView::ApplyEntry(entry) => {
                lemma_round_trip::<C, T>(
                    contents,
                    tokenizer,
                    C::decide_spec(state, entry).0,
                    text,
                    actions.drop_first(),
                );
            },
        }
    }
}

/// Whether the list `res` holds the derivation `actions`.
fn holds(res: &Vec<Actions>, actions: &Vec<Action>) -> (r: bool)
    ensures
        r == found(res@, derivation(actions@)),
{
    let mut i: usize = 0;
    while i < res.len()
        invariant
            i <= res.len(),
            forall|j: int| 0 <= j < i ==> derivation((#[trigger] res@[j])@) != derivation(actions@),
        decreases res.len() - i,
    {
        if same_derivation(&res[i], actions) {
            return true;
        }
        i = i + 1;
    }
    false
}

/// Appends a copy of the derivation `actions` to `res`, unless `res`
/// holds the derivation already.
fn record(res: &mut Vec<Actions>, actions: &Vec<Action>)
    ensures
        forall|x: Seq<ActionView>| #[trigger]
            found(final(res)@, x) <==> found(old(res)@, x) || x == derivation(actions@),
        distinct_derivations(old(res)@) ==> distinct_derivations(final(res)@),
{
    if holds(res, actions) {
        return ;
    }
    let copy = copy_actions(actions);
    res.push(copy);
    proof {
        let before = old(res)@;
        let after = res@;
        assert(derivation(after[before.len() as int]@) == derivation(actions@));
        assert forall|x: Seq<ActionView>| #[trigger] found(after, x) <==> found(before, x) || x
            == derivation(actions@) by {
            if found(after, x) {
                let i = choose|i: int| 0 <= i < after.len() && derivation((#[trigger] after[i])@) == x;
                if i < before.len() {
                    assert(derivation(before[i]@) == x);
                }
            }
            if found(before, x) {
                let i = choose|i: int|
                    0 <= i < before.len() && derivation((#[trigger] before[i])@) == x;
                assert(derivation(after[i]@) == x);
            }
        }
        if distinct_derivations(before) {
            assert forall|i: int, j: int| 0 <= i < j < after.len() implies derivation(
                (#[trigger] after[i])@,
            ) != derivation((#[trigger] after[j])@) by {
                if j < before.len() {
                    assert(after[i] == before[i] && after[j] == before[j]);
                } else {
                    assert(after[i] == before[i]);
                }
            }
        }
    }
}

/// Puts `action` at the end of the derivation `actions`.
fn extend(actions: &mut Vec<Action>, action: Action)
    ensures
        derivation(final(actions)@) == derivation(old(actions)@).push(action@),
{
    actions.push(action);
    assert(derivation(actions@) =~= derivation(old(actions)@).push(action@));
}

/// Takes the last action off the derivation `actions`.
fn retract(actions: &mut Vec<Action>)
    requires
        old(actions)@.len() > 0,
    ensures
        derivation(final(actions)@) == derivation(old(actions)@).drop_last(),
{
    actions.pop();
    assert(derivation(actions@) =~= derivation(old(actions)@).drop_last());
}

/// One level of the search: from the model `cogmodel`, with the text
/// `text` before it and the derivation `actions` behind it, every way to
/// completion in at most `fuel` further actions is appended to `res`,
/// unless `res` holds it already.
pub fn step<L: Lexicon, T: Tokenizer, C: CognitiveModel>(
    lexicon: &L,
    tokenizer: &T,
    res: &mut Vec<Actions>,
    actions: &mut Vec<Action>,
    cogmodel: C,
    text: &str,
    fuel: usize,
)
    requires
        lexicon.wf(),
    ensures
        derivation(final(actions)@) == derivation(old(actions)@),
        distinct_derivations(old(res)@) ==> distinct_derivations(final(res)@),
        forall|x: Seq<ActionView>| #[trigger]
            found(final(res)@, x) <==> found(old(res)@, x) || reaches::<C, T>(
                lexicon.contents(),
                tokenizer,
                derivation(old(actions)@),
                x,
                fuel as nat,
                cogmodel@,
                text@,
            ),
    decreases fuel,
{
    let ghost contents = lexicon.contents();
    let ghost prefix = derivation(actions@);
    let ghost state = cogmodel@;
    let ghost n = prefix.len() as int;
    if text.is_empty() && cogmodel.understood() {
        record(res, actions);
        proof {
            assert forall|x: Seq<ActionView>|
                x == prefix <==> reaches::<C, T>(
                    contents,
                    tokenizer,
                    prefix,
                    x,
                    fuel as nat,
                    state,
                    text@,
                ) by {
                assert(prefix.take(n) =~= prefix);
                assert(prefix.skip(n).len() == 0);
                if reaches::<C, T>(contents, tokenizer, prefix, x, fuel as nat, state, text@) {
                    assert(x.skip(n).len() == 0);
                    assert(x.take(n) =~= x);
                }
            }
        }
        return ;
    }
    if fuel == 0 {
        assert forall|x: Seq<ActionView>|
            !reaches::<C, T>(contents, tokenizer, prefix, x, fuel as nat, state, text@) by {
            if x.len() >= n && x.len() - n <= 0 {
                assert(x.skip(n).len() == 0);
            }
        }
        return ;
    }
    let ghost res0 = res@;
    let cands = if cogmodel.demand() {
        tokenizer.tokenize(text)
    } else {
        Vec::new()
    };
    let mut i: usize = 0;
    while i < cands.len()
        invariant
            lexicon.wf(),
            contents == lexicon.contents(),
            state == cogmodel@,
            i <= cands.len(),
            fuel > 0,
            derivation(actions@) == prefix,
            distinct_derivations(old(res)@) ==> distinct_derivations(res@),
            forall|x: Seq<ActionView>| #[trigger]
                found(res@, x) <==> found(res0, x) || via_token::<C, T>(
                    contents,
                    tokenizer,
                    prefix,
                    x,
                    fuel as nat,
                    state,
                    cands@,
                    i as int,
                ),
        decreases cands.len() - i,
    {
        let (newtoken, remainder) = cands[i];
        let ghost before = res@;
        extend(actions, Action::AddToken(newtoken));
        let mut next = cogmodel.fork();
        let taken = next.receive(newtoken).is_ok();
        if taken {
            step(lexicon, tokenizer, res, actions, next, remainder, fuel - 1);
        }
        assert(derivation(actions@).len() == actions@.len());
        retract(actions);
        proof {
            assert(prefix.push(ActionView::AddToken(newtoken)).drop_last() =~= prefix);
            assert forall|x: Seq<ActionView>| #[trigger]
                found(res@, x) <==> found(res0, x) || via_token::<C, T>(
                    contents,
                    tokenizer,
                    prefix,
                    x,
                    fuel as nat,
                    state,
                    cands@,
                    i + 1,
                ) by {
                let here = via_candidate::<C, T>(
                    contents,
                    tokenizer,
                    prefix,
                    x,
                    fuel as nat,
                    state,
                    cands@[i as int].0,
                    cands@[i as int].1@,
                );
                assert(found(res@, x) <==> found(before, x) || here);
                if via_token::<C, T>(contents, tokenizer, prefix, x, fuel as nat, state, cands@, i + 1)
                    && !here {
                    let j = choose|j: int|
                        0 <= j < i + 1 && via_candidate::<C, T>(
                            contents,
                            tokenizer,
                            prefix,
                            x,
                            fuel as nat,
                            state,
                            (#[trigger] cands@[j]).0,
                            cands@[j].1@,
                        );
                    assert(j < i);
                }
            }
        }
        i = i + 1;
    }
    let ghost res1 = res@;
    let entries = match cogmodel.wonder() {
        Some(value) => lexicon.get_entries(value),
        None => Vec::new(),
    };
    let mut k: usize = 0;
    while k < entries.len()
        invariant
            lexicon.wf(),
            contents == lexicon.contents(),
            state == cogmodel@,
            k <= entries.len(),
            fuel > 0,
            derivation(actions@) == prefix,
            distinct_derivations(old(res)@) ==> distinct_derivations(res@),
            forall|x: Seq<ActionView>| #[trigger]
                found(res@, x) <==> found(res1, x) || via_entry::<C, T>(
                    contents,
                    tokenizer,
                    prefix,
                    x,
                    fuel as nat,
                    state,
                    text@,
                    entries@,
                    k as int,
                ),
        decreases entries.len() - k,
    {
        let entry = entries[k].clone();
        let ghost before = res@;
        extend(actions, Action::ApplyEntry(entry.clone()));
        let mut next = cogmodel.fork();
        let applied = next.decide(entry).is_ok();
        if applied {
            step(lexicon, tokenizer, res, actions, next, text, fuel - 1);
        }
        assert(derivation(actions@).len() == actions@.len());
        retract(actions);
        proof {
            assert(prefix.push(ActionView::ApplyEntry(entries@[k as int]@)).drop_last() =~= prefix);
            assert forall|x: Seq<ActionView>| #[trigger]
                found(res@, x) <==> found(res1, x) || via_entry::<C, T>(
                    contents,
                    tokenizer,
                    prefix,
                    x,
                    fuel as nat,
                    state,
                    text@,
                    entries@,
                    k + 1,
                ) by {
                let here = via_answer::<C, T>(
                    contents,
                    tokenizer,
                    prefix,
                    x,
                    fuel as nat,
                    state,
                    text@,
                    entries@[k as int]@,
                );
                assert(found(res@, x) <==> found(before, x) || here);
                if via_entry::<C, T>(
                    contents,
                    tokenizer,
                    prefix,
                    x,
                    fuel as nat,
                    state,
                    text@,
                    entries@,
                    k + 1,
                ) && !here {
                    let j = choose|j: int|
                        0 <= j < k + 1 && via_answer::<C, T>(
                            contents,
                            tokenizer,
                            prefix,
                            x,
                            fuel as nat,
                            state,
                            text@,
                            (#[trigger] entries@[j])@,
                        );
                    assert(j < k);
                }
            }
        }
        k = k + 1;
    }
    proof {
        assert forall|x: Seq<ActionView>| #[trigger]
            found(res@, x) <==> found(res0, x) || reaches::<C, T>(
                contents,
                tokenizer,
                prefix,
                x,
                fuel as nat,
                state,
                text@,
            ) by {
            lemma_branches::<C, T>(
                contents,
                tokenizer,
                prefix,
                x,
                fuel as nat,
                state,
                text@,
                cands@,
                entries@,
            );
        }
    }
}

/// Whether `x` is a derivation of at most `limit` actions that takes a new
/// model of the kind `C`, for the target category `target`, through the
/// text `text` to completion, with the tokens that the dialect's tokenizer
/// offers and the entries with which its lexicon answers.
pub open spec fn interprets<D: Dialect, C: CognitiveModel>(
    dialect: &D,
    text: Seq<char>,
    target: Key,
    limit: nat,
    x: Seq<ActionView>,
) -> bool {
    x.len() <= limit && derives::<C, D::Tokenizer>(
        dialect.lexicon_spec().contents(),
        dialect.tokenizer_spec(),
        C::init_spec(target_features(target)),
        text,
        x,
    )
}

/// Round trip: a derivation that interprets a text uses the text up, and
/// replayed on a new model of the same kind for the same target category
/// it fails at no step and ends in a complete model.
pub proof fn lemma_interpretation_replays<D: Dialect, C: CognitiveModel>(
    dialect: &D,
    text: Seq<char>,
    target: Key,
    limit: nat,
    x: Seq<ActionView>,
)
    requires
        interprets::<D, C>(dialect, text, target, limit, x),
    ensures
        replay::<C>(C::init_spec(target_features(target)), x).1 is Ok,
        C::understood_spec(replay::<C>(C::init_spec(target_features(target)), x).0),
{
    lemma_round_trip::<C, D::Tokenizer>(
        dialect.lexicon_spec().contents(),
        dialect.tokenizer_spec(),
        C::init_spec(target_features(target)),
        text,
        x,
    );
}

/// Every derivation of at most `limit` actions that interprets the text
/// `text` as the category named `target`, each once. The search goes depth
/// first; at each state it tries every candidate for the next token, if
/// the model demands one, and then every entry that answers what the model
/// wants interpreted. Each attempt works on a model of its own; one that
/// fails is given up, and a derivation that was found before is not
/// recorded again. The search itself fails only if the name of the target
/// cannot be made a key.
pub fn interpret<D: Dialect, C: CognitiveModel>(dialect: &D, text: &str, target: &str, limit: usize) -> (r:
    Result<Vec<Actions>, Error>)
    requires
        dialect.lexicon_spec().wf(),
    ensures
        match dialect.interner_spec().key_of(target@) {
            Some(key) => r is Ok && distinct_derivations(r->Ok_0@) && forall|x: Seq<ActionView>|
                #[trigger] found(r->Ok_0@, x) <==> interprets::<D, C>(
                    dialect,
                    text@,
                    key,
                    limit as nat,
                    x,
                ),
            None => r == Err::<Vec<Actions>, Error>(Error::FromStr),
        },
{
    let target = match dialect.interner().intern(target) {
        Some(key) => key,
        None => {
            return Err(Error::FromStr);
        },
    };
    let cogmodel = C::init(FeatureSet::from_category(target));
    let mut res: Vec<Actions> = Vec::new();
    let mut actions: Vec<Action> = Vec::new();
    step(dialect.lexicon(), dialect.tokenizer(), &mut res, &mut actions, cogmodel, text, limit);
    proof {
        assert(derivation(Seq::<Action>::empty()) =~= Seq::<ActionView>::empty());
        assert forall|x: Seq<ActionView>| #[trigger]
            found(res@, x) <==> interprets::<D, C>(dialect, text@, target, limit as nat, x) by {
            assert(x.skip(0) =~= x);
            assert(x.take(0) =~= Seq::<ActionView>::empty());
        }
    }
    Ok(res)
}

} // verus!
