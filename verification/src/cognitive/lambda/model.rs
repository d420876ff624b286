use super::super::model::CognitiveModel;
use super::error::Error;
use super::node::{Node, NodeView};
use super::valid_entry::{ValidEntry, ValidEntryView};
use crate::interner::{name_view, Interner};
use crate::lexicon::{LexiconEntry, LexiconEntryView};
use crate::text::{join, joined, texts};
use crate::syntax::{merged, FeatureSet, Features, Key, SyntaxValue, SyntaxValueView};
use vstd::prelude::*;

verus! {

/// The stack of expectations, the last being the current focus.
pub type Stack = Seq<NodeView>;

/// A projection marker on top of the stack is taken off, and the features
/// `from`, but for those that the marker ignores, are merged onto the
/// feature set on the left of the expectation then exposed, if it has one.
pub open spec fn possibly_project_spec(stack: Stack, from: Features) -> (Stack, Result<(), Error>) {
    if stack.len() > 0 && stack.last() is Projection {
        let ignore = stack.last()->ignore;
        let rest = stack.drop_last();
        if rest.len() > 0 && rest.last().features_left() is Some {
            match merged(from, rest.last().features_left()->0, ignore) {
                Ok(onto) => (rest.drop_last().push(rest.last().with_features_left(onto)), Ok(())),
                Err(e) => (rest, Err(Error::Syntax(e))),
            }
        } else {
            (rest, Ok(()))
        }
    } else {
        (stack, Ok(()))
    }
}

/// An application from the features `from` to the features `to` is pushed,
/// unless it is vacuous: if `to` is a subset of `from`, nothing is pushed
/// and a projection marker on top of the stack is used up instead. Says
/// whether it was pushed.
pub open spec fn push_lambda_features_spec(stack: Stack, from: Features, to: Features) -> (
    Stack,
    Result<bool, Error>,
) {
    if to.submap_of(from) {
        let (s, r) = possibly_project_spec(stack, from);
        match r {
            Ok(_) => (s, Ok(false)),
            Err(e) => (s, Err(e)),
        }
    } else {
        (
            stack.push(
                NodeView::Lambda {
                    from: SyntaxValueView::Features(from),
                    to: Box::new(NodeView::Value { value: SyntaxValueView::Features(to) }),
                },
            ),
            Ok(true),
        )
    }
}

/// The stack `stack` with a projection marker for `ignore` pushed if
/// `wanted`.
pub open spec fn with_projection(stack: Stack, wanted: bool, ignore: Features) -> Stack {
    if wanted {
        stack.push(NodeView::Projection { ignore })
    } else {
        stack
    }
}

/// The applicable entry `from` is applied against the expectation `to`
/// that the resolved slot led to. The result is flattened: a function
/// entry is pushed as nested applications, so that its own unresolved
/// argument becomes the focus.
pub open spec fn push_lexicon_lambda_spec(stack: Stack, from: ValidEntryView, to: NodeView) -> (
    Stack,
    Result<bool, Error>,
)
    decreases to,
{
    match (from, to) {
        (ValidEntryView::Features(f), NodeView::Value { value: SyntaxValueView::Features(t) }) => {
            push_lambda_features_spec(stack, f, t)
        },
        (ValidEntryView::Features(_), NodeView::Value { value: SyntaxValueView::Item(_) }) => (
            stack,
            Err(Error::LambdaToMustBeFeatures),
        ),
        (ValidEntryView::Features(f), NodeView::Lambda { .. }) => (
            stack.push(NodeView::Lambda { from: SyntaxValueView::Features(f), to: Box::new(to) }),
            Ok(true),
        ),
        (
            ValidEntryView::Lambda { from: new, to: f, project },
            NodeView::Value { value: SyntaxValueView::Features(t) },
        ) => {
            let (s1, r1) = push_lambda_features_spec(stack, f, t);
            match r1 {
                Err(e) => (s1, Err(e)),
                Ok(pushed) => {
                    let s2 = with_projection(s1, pushed && project, new.features_right());
                    match NodeView::of_entry(*new) {
                        Err(e) => (s2, Err(e)),
                        Ok(n) => (s2.push(n), Ok(true)),
                    }
                },
            }
        },
        (ValidEntryView::Lambda { .. }, NodeView::Value { value: SyntaxValueView::Item(_) }) => (
            stack,
            Err(Error::LambdaToMustBeFeatures),
        ),
        (ValidEntryView::Lambda { from: a, to: b, project }, NodeView::Lambda { from: c, to: d }) => {
            let (s1, r1) = push_lexicon_lambda_spec(stack, ValidEntryView::Features(b), *d);
            match r1 {
                Err(e) => (s1, Err(e)),
                Ok(pushed) => {
                    let s2 = with_projection(s1, pushed && project, a.features_right());
                    match NodeView::of_entry(*a) {
                        Err(e) => (s2, Err(e)),
                        Ok(n) => (s2.push(NodeView::Lambda { from: c, to: Box::new(n) }), Ok(true)),
                    }
                },
            }
        },
        (_, NodeView::Projection { .. }) => (stack, Err(Error::LambdaToMustBeFeatures)),
    }
}

/// The entry `entry`, made applicable, with the features of the resolved
/// slot merged onto its result where the entry asks for it.
pub open spec fn applicable(from: SyntaxValueView, entry: LexiconEntryView) -> Result<
    ValidEntryView,
    Error,
> {
    match (from, entry) {
        (SyntaxValueView::Features(from_fs), LexiconEntryView::Functional { to, project }) => {
            match ValidEntryView::of_node(to) {
                Err(e) => Err(e),
                Ok(v) => match project {
                    Some(ignore) => match merged(from_fs, v.features_right(), ignore) {
                        Ok(onto) => Ok(v.with_features_right(onto)),
                        Err(e) => Err(Error::Syntax(e)),
                    },
                    None => Ok(v),
                },
            }
        },
        (SyntaxValueView::Item(_), LexiconEntryView::Lexical(node)) => ValidEntryView::of_node(node),
        _ => Err(Error::QueryAndEntryTypeMismatch),
    }
}

/// The focus is taken off the stack; it must be a pending application,
/// whose slot `entry` then resolves.
pub open spec fn decide_step(stack: Stack, entry: LexiconEntryView) -> (Stack, Result<(), Error>) {
    if stack.len() == 0 {
        (stack, Err(Error::NoExpectation))
    } else {
        let rest = stack.drop_last();
        match stack.last() {
            NodeView::Lambda { from, to } => match applicable(from, entry) {
                Err(e) => (rest, Err(e)),
                Ok(v) => {
                    let (s, r) = push_lexicon_lambda_spec(rest, v, *to);
                    match r {
                        Ok(_) => (s, Ok(())),
                        Err(e) => (s, Err(e)),
                    }
                },
            },
            _ => (rest, Err(Error::ApplyEntryToNonLambda)),
        }
    }
}

/// The focus is replaced by an application from the token to the focus.
pub open spec fn receive_step(stack: Stack, token: Key) -> (Stack, Result<(), Error>) {
    if stack.len() == 0 {
        (stack, Err(Error::NoExpectation))
    } else {
        (
            stack.drop_last().push(
                NodeView::Lambda { from: SyntaxValueView::Item(token), to: Box::new(stack.last()) },
            ),
            Ok(()),
        )
    }
}

/// Whether a token is taken: the focus is a value, or an application that
/// leads to a value.
pub open spec fn demands(stack: Stack) -> bool {
    stack.len() > 0 && match stack.last() {
        NodeView::Value { .. } => true,
        NodeView::Lambda { to, .. } => *to is Value,
        NodeView::Projection { .. } => false,
    }
}

/// What awaits interpretation: the slot of a pending application in focus.
pub open spec fn wonders(stack: Stack) -> Option<SyntaxValueView> {
    if stack.len() > 0 && stack.last() is Lambda {
        Some(stack.last()->from)
    } else {
        None
    }
}

/// A model that expects nothing takes nothing: it demands no token and
/// wonders about nothing, and a token or an entry fails.
pub proof fn lemma_complete_model_is_closed(stack: Stack, token: Key, entry: LexiconEntryView)
    requires
        stack.len() == 0,
    ensures
        !demands(stack),
        wonders(stack) is None,
        receive_step(stack, token) == (stack, Err::<(), Error>(Error::NoExpectation)),
        decide_step(stack, entry) == (stack, Err::<(), Error>(Error::NoExpectation)),
{
}

/// A model that expects anything takes a token, and then wonders about
/// that token; the number of its expectations stays.
pub proof fn lemma_token_awaits_interpretation(stack: Stack, token: Key)
    requires
        stack.len() > 0,
    ensures
        receive_step(stack, token).1 is Ok,
        receive_step(stack, token).0.len() == stack.len(),
        wonders(receive_step(stack, token).0) == Some(SyntaxValueView::Item(token)),
{
}

/// An entry applies only to a pending application: on any other focus it
/// fails, and the focus is gone.
pub proof fn lemma_entry_needs_application(stack: Stack, entry: LexiconEntryView)
    requires
        stack.len() > 0,
        !(stack.last() is Lambda),
    ensures
        wonders(stack) is None,
        decide_step(stack, entry) == (
            stack.drop_last(),
            Err::<(), Error>(Error::ApplyEntryToNonLambda),
        ),
{
}

/// A plain interpretation that holds every feature its slot was to lead
/// to resolves the expectation: with no projection marker below, the focus
/// is taken off and nothing is put in its place.
pub proof fn lemma_sufficient_interpretation_resolves(
    stack: Stack,
    token: Key,
    expected: Features,
    found: Features,
)
    requires
        stack.len() > 0,
        stack.last() == (NodeView::Lambda {
            from: SyntaxValueView::Item(token),
            to: Box::new(NodeView::Value { value: SyntaxValueView::Features(expected) }),
        }),
        expected.submap_of(found),
        stack.len() > 1 ==> !(stack[stack.len() - 2] is Projection),
    ensures
        decide_step(
            stack,
            LexiconEntryView::Lexical(
                crate::lexicon::LexiconNodeView::Value { value: SyntaxValueView::Features(found) },
            ),
        ) == (stack.drop_last(), Ok::<(), Error>(())),
{
    let rest = stack.drop_last();
    if rest.len() > 0 {
        assert(rest.last() == stack[stack.len() - 2]);
    }
}

/// How the expectations `stack` are written, each for itself; nothing if
/// a key has no name.
pub open spec fn stack_texts<I: Interner>(names: &I, stack: Stack) -> Option<Seq<Seq<char>>>
    decreases stack.len(),
{
    if stack.len() == 0 {
        Some(Seq::empty())
    } else {
        match (stack_texts(names, stack.drop_last()), stack.last().text(names)) {
            (Some(front), Some(last)) => Some(front.push(last)),
            _ => None,
        }
    }
}

/// If the first `n` expectations cannot all be written, the stack cannot.
pub proof fn lemma_stack_texts_fail<I: Interner>(names: &I, stack: Stack, n: int)
    requires
        0 <= n <= stack.len(),
        stack_texts(names, stack.take(n)) is None,
    ensures
        stack_texts(names, stack) is None,
    decreases stack.len() - n,
{
    if n < stack.len() {
        assert(stack.take(n + 1).drop_last() =~= stack.take(n));
        lemma_stack_texts_fail(names, stack, n + 1);
    } else {
        assert(stack.take(n) =~= stack);
    }
}

/// How the stack is written: its expectations from the bottom to the
/// focus, with a comma between each two.
pub open spec fn stack_text<I: Interner>(names: &I, stack: Stack) -> Option<Seq<char>> {
    match stack_texts(names, stack) {
        Some(entries) => Some(joined(entries, ", "@)),
        None => None,
    }
}

/// The frontier model: a stack of pending expectations.
#[derive(Debug, PartialEq, Eq)]
pub struct LambdaModel {
    expects: Vec<Node>,
}

impl View for LambdaModel {
    type V = Stack;

    closed spec fn view(&self) -> Stack {
        self.expects@.map_values(|n: Node| n@)
    }
}

impl LambdaModel {
    /// The model that expects nothing.
    pub fn new() -> (r: Self)
        ensures
            r@ == Stack::empty(),
    {
        let r = LambdaModel { expects: Vec::new() };
        assert(r@ =~= Stack::empty());
        r
    }

    /// Whether nothing is expected.
    pub fn is_empty(&self) -> (r: bool)
        ensures
            r == (self@.len() == 0),
    {
        self.expects.len() == 0
    }

    /// Puts `expect` on top of the stack.
    pub fn push(&mut self, expect: Node)
        ensures
            final(self)@ == old(self)@.push(expect@),
    {
        self.expects.push(expect);
        assert(self@ =~= old(self)@.push(expect@));
    }

    /// Puts an application from `from` to `to` on top of the stack.
    pub fn push_lambda(&mut self, from: SyntaxValue, to: Node)
        ensures
            final(self)@ == old(self)@.push(NodeView::Lambda { from: from@, to: Box::new(to@) }),
    {
        self.push(Node::Lambda { from, to: Box::new(to) });
    }

    /// Puts a projection marker on top of the stack.
    pub fn push_projection(&mut self, ignore: FeatureSet)
        ensures
            final(self)@ == old(self)@.push(NodeView::Projection { ignore: ignore@ }),
    {
        self.push(Node::Projection { ignore });
    }

    /// The focus, if anything is expected.
    pub fn peek(&self) -> (r: Option<&Node>)
        ensures
            self@.len() == 0 ==> r is None,
            self@.len() > 0 ==> r is Some && r->0@ == self@.last(),
    {
        let n = self.expects.len();
        if n == 0 {
            None
        } else {
            Some(&self.expects[n - 1])
        }
    }

    /// The focus, to be changed in place.
    pub fn peek_mut(&mut self) -> (r: Option<&mut Node>)
        ensures
            match r {
                Some(node) => old(self)@.len() > 0 && node@ == old(self)@.last() && final(self)@
                    == old(self)@.drop_last().push(final(node)@),
                None => old(self)@.len() == 0 && final(self)@ == old(self)@,
            },
    {
        let n = self.expects.len();
        if n == 0 {
            None
        } else {
            let ghost before = self.expects@;
            let node = &mut self.expects[n - 1];
            proof {
                assert(before.map_values(|n: Node| n@).drop_last().push(final(node)@)
                    =~= before.update(n - 1, *final(node)).map_values(|n: Node| n@));
            }
            Some(node)
        }
    }

    /// Takes the focus off the stack.
    pub fn pop(&mut self) -> (r: Option<Node>)
        ensures
            old(self)@.len() == 0 ==> r is None && final(self)@ == old(self)@,
            old(self)@.len() > 0 ==> r is Some && r->0@ == old(self)@.last() && final(self)@ == old(
                self,
            )@.drop_last(),
    {
        let r = self.expects.pop();
        assert(old(self)@.len() > 0 ==> self@ =~= old(self)@.drop_last());
        r
    }

    /// Takes the focus off the stack; fails if nothing is expected.
    pub fn pop_node(&mut self) -> (r: Result<Node, Error>)
        ensures
            old(self)@.len() == 0 ==> r == Err::<Node, Error>(Error::NoExpectation) && final(self)@
                == old(self)@,
            old(self)@.len() > 0 ==> r is Ok && r->Ok_0@ == old(self)@.last() && final(self)@ == old(
                self,
            )@.drop_last(),
    {
        match self.pop() {
            Some(node) => Ok(node),
            None => Err(Error::NoExpectation),
        }
    }

    /// Uses up a projection marker on top of the stack, if there is one.
    pub fn possibly_project(&mut self, from: &FeatureSet) -> (r: Result<(), Error>)
        ensures
            (final(self)@, r) == possibly_project_spec(old(self)@, from@),
    {
        match self.pop() {
            Some(Node::Projection { ignore }) => {
                match self.pop() {
                    Some(mut node) => {
                        let ghost below = node@;
                        let mut failure: Option<crate::syntax::Error> = None;
                        match node.get_features_left_mut() {
                            Some(onto) => {
                                match FeatureSet::project(from, onto, &ignore) {
                                    Ok(()) => {},
                                    Err(e) => {
                                        failure = Some(e);
                                    },
                                }
                            },
                            None => {},
                        }
                        self.push(node);
                        match failure {
                            Some(e) => {
                                proof {
                                    let rest = old(self)@.drop_last();
                                    assert(rest.drop_last().push(rest.last()) =~= rest);
                                    assert(below.with_features_left(below.features_left()->0) == below);
                                }
                                Err(Error::Syntax(e))
                            },
                            None => {
                                proof {
                                    let rest = old(self)@.drop_last();
                                    assert(rest.drop_last().push(rest.last()) =~= rest);
                                }
                                Ok(())
                            },
                        }
                    },
                    None => Ok(()),
                }
            },
            Some(other) => {
                self.push(other);
                assert(old(self)@.drop_last().push(old(self)@.last()) =~= old(self)@);
                Ok(())
            },
            None => Ok(()),
        }
    }

    /// Pushes an application from `from` to `to` unless it is vacuous; says
    /// whether it was pushed.
    pub fn push_lambda_features(&mut self, from: FeatureSet, to: FeatureSet) -> (r: Result<
        bool,
        Error,
    >)
        ensures
            (final(self)@, r) == push_lambda_features_spec(old(self)@, from@, to@),
    {
        if to.is_subset(&from) {
            match self.possibly_project(&from) {
                Ok(()) => Ok(false),
                Err(e) => Err(e),
            }
        } else {
            self.push_lambda(SyntaxValue::from_features(from), Node::from_features(to));
            Ok(true)
        }
    }

    /// Applies the applicable entry `from` against the expectation `to`
    /// that the resolved slot led to; says whether an application was
    /// pushed.
    pub fn push_lexicon_lambda(&mut self, from: ValidEntry, to: Node) -> (r: Result<bool, Error>)
        ensures
            (final(self)@, r) == push_lexicon_lambda_spec(old(self)@, from@, to@),
        decreases to,
    {
        match (from, to) {
            (ValidEntry::Features(from), Node::Value { value: to }) => match to {
                SyntaxValue::Features(to) => self.push_lambda_features(from, to),
                SyntaxValue::Item(_) => Err(Error::LambdaToMustBeFeatures),
            },
            (ValidEntry::Features(from), Node::Lambda { from: c, to: d }) => {
                self.push_lambda(SyntaxValue::from_features(from), Node::Lambda { from: c, to: d });
                Ok(true)
            },
            (ValidEntry::Lambda { from: new, to: from, project }, Node::Value { value: to }) => {
                let to = match to {
                    SyntaxValue::Features(to) => to,
                    SyntaxValue::Item(_) => {
                        return Err(Error::LambdaToMustBeFeatures);
                    },
                };
                let pushed = match self.push_lambda_features(from, to) {
                    Ok(pushed) => pushed,
                    Err(e) => {
                        return Err(e);
                    },
                };
                if pushed && project {
                    let ignore = (*new).get_features_right().clone();
                    self.push_projection(ignore);
                }
                match Node::try_from_entry(*new) {
                    Ok(new) => {
                        self.push(new);
                        Ok(true)
                    },
                    Err(e) => Err(e),
                }
            },
            (ValidEntry::Lambda { from: a, to: b, project }, Node::Lambda { from: c, to: d }) => {
                let pushed = match self.push_lexicon_lambda(ValidEntry::from_features(b), *d) {
                    Ok(pushed) => pushed,
                    Err(e) => {
                        return Err(e);
                    },
                };
                if pushed && project {
                    let ignore = (*a).get_features_right().clone();
                    self.push_projection(ignore);
                }
                match Node::try_from_entry(*a) {
                    Ok(a) => {
                        self.push_lambda(c, a);
                        Ok(true)
                    },
                    Err(e) => Err(e),
                }
            },
            (_, Node::Projection { .. }) => Err(Error::LambdaToMustBeFeatures),
        }
    }

    /// The model as it is written; nothing if a key has no name.
    pub fn to_string<I: Interner>(&self, names: &I) -> (r: Option<String>)
        ensures
            name_view(r) == stack_text(names, self@),
    {
        let ghost all = self@;
        let mut entries: Vec<String> = Vec::new();
        let mut i: usize = 0;
        assert(texts(entries@) =~= Seq::<Seq<char>>::empty());
        while i < self.expects.len()
            invariant
                i <= self.expects.len(),
                all == self@,
                stack_texts(names, all.take(i as int)) == Some(texts(entries@)),
            decreases self.expects.len() - i,
        {
            proof {
                assert(all.take(i + 1).drop_last() =~= all.take(i as int));
                assert(all.take(i + 1).last() == self.expects@[i as int]@);
            }
            match self.expects[i].to_string(names) {
                Some(entry) => {
                    let ghost before = texts(entries@);
                    let ghost text = entry@;
                    entries.push(entry);
                    assert(texts(entries@) =~= before.push(text));
                },
                None => {
                    proof {
                        lemma_stack_texts_fail(names, all, i + 1);
                    }
                    return None;
                },
            }
            i = i + 1;
        }
        assert(all.take(i as int) =~= all);
        Some(join(&entries, ", "))
    }

    /// The entry `entry`, made applicable to the slot `from`.
    fn make_applicable(from: SyntaxValue, entry: LexiconEntry) -> (r: Result<ValidEntry, Error>)
        ensures
            match applicable(from@, entry@) {
                Ok(v) => r is Ok && r->Ok_0@ == v,
                Err(e) => r == Err::<ValidEntry, Error>(e),
            },
    {
        match (from, entry) {
            (SyntaxValue::Features(from_fs), LexiconEntry::Functional { to, project }) => {
                let mut v = match ValidEntry::try_from_node(to) {
                    Ok(v) => v,
                    Err(e) => {
                        return Err(e);
                    },
                };
                match project {
                    Some(ignore) => {
                        let onto = v.get_features_right_mut();
                        match FeatureSet::project(&from_fs, onto, &ignore) {
                            Ok(()) => Ok(v),
                            Err(e) => Err(Error::Syntax(e)),
                        }
                    },
                    None => Ok(v),
                }
            },
            (SyntaxValue::Item(_), LexiconEntry::Lexical(node)) => ValidEntry::try_from_node(node),
            _ => Err(Error::QueryAndEntryTypeMismatch),
        }
    }

    /// Takes the focus off the stack and resolves its slot with `entry`.
    fn apply(&mut self, entry: LexiconEntry) -> (r: Result<(), Error>)
        ensures
            (final(self)@, r) == decide_step(old(self)@, entry@),
    {
        let target = match self.pop_node() {
            Ok(target) => target,
            Err(e) => {
                return Err(e);
            },
        };
        match target {
            Node::Lambda { from, to } => {
                let v = match Self::make_applicable(from, entry) {
                    Ok(v) => v,
                    Err(e) => {
                        return Err(e);
                    },
                };
                match self.push_lexicon_lambda(v, *to) {
                    Ok(_) => Ok(()),
                    Err(e) => Err(e),
                }
            },
            _ => Err(Error::ApplyEntryToNonLambda),
        }
    }

    /// Replaces the focus by an application from `token` to the focus.
    fn take(&mut self, token: Key) -> (r: Result<(), Error>)
        ensures
            (final(self)@, r) == receive_step(old(self)@, token),
    {
        let to = match self.pop_node() {
            Ok(to) => to,
            Err(e) => {
                return Err(e);
            },
        };
        self.push_lambda(SyntaxValue::from_item(token), to);
        Ok(())
    }
}

impl Default for LambdaModel {
    fn default() -> (r: Self)
        ensures
            r@ == Stack::empty(),
    {
        Self::new()
    }
}

/// The result of a step of the frontier model, as a step of a cognitive
/// model.
pub open spec fn lifted(step: (Stack, Result<(), Error>)) -> (Stack, Result<(), crate::cognitive::Error>) {
    (
        step.0,
        match step.1 {
            Ok(_) => Ok(()),
            Err(e) => Err(crate::cognitive::Error::LambdaModel(e)),
        },
    )
}

impl CognitiveModel for LambdaModel {
    open spec fn init_spec(target: Features) -> Stack {
        seq![NodeView::Value { value: SyntaxValueView::Features(target) }]
    }

    open spec fn understood_spec(state: Stack) -> bool {
        state.len() == 0
    }

    open spec fn demand_spec(state: Stack) -> bool {
        demands(state)
    }

    open spec fn receive_spec(state: Stack, token: Key) -> (Stack, Result<(), crate::cognitive::Error>) {
        lifted(receive_step(state, token))
    }

    open spec fn wonder_spec(state: Stack) -> Option<SyntaxValueView> {
        wonders(state)
    }

    open spec fn decide_spec(state: Stack, entry: LexiconEntryView) -> (
        Stack,
        Result<(), crate::cognitive::Error>,
    ) {
        lifted(decide_step(state, entry))
    }

    fn init(target: FeatureSet) -> (r: Self) {
        let mut model = Self::new();
        model.push(Node::from_features(target));
        assert(model@ =~= Self::init_spec(target@));
        model
    }

    fn understood(&self) -> (r: bool) {
        self.is_empty()
    }

    fn demand(&self) -> (r: bool) {
        match self.peek() {
            Some(node) => match node {
                Node::Value { .. } => true,
                Node::Lambda { to, .. } => {
                    let inner: &Node = &**to;
                    assert(node@->to == Box::new(inner@));
                    match inner {
                        Node::Value { .. } => true,
                        _ => false,
                    }
                },
                Node::Projection { .. } => false,
            },
            None => false,
        }
    }

    fn receive(&mut self, token: Key) -> (r: Result<(), crate::cognitive::Error>) {
        match self.take(token) {
            Ok(()) => Ok(()),
            Err(e) => Err(crate::cognitive::Error::LambdaModel(e)),
        }
    }

    fn wonder(&self) -> (r: Option<&SyntaxValue>) {
        match self.peek() {
            Some(Node::Lambda { from, .. }) => Some(from),
            _ => None,
        }
    }

    fn decide(&mut self, entry: LexiconEntry) -> (r: Result<(), crate::cognitive::Error>) {
        match self.apply(entry) {
            Ok(()) => Ok(()),
            Err(e) => Err(crate::cognitive::Error::LambdaModel(e)),
        }
    }

    fn fork(&self) -> (r: Self) {
        self.clone()
    }
}

impl Clone for LambdaModel {
    fn clone(&self) -> (r: Self)
        ensures
            r@ == self@,
    {
        let mut expects: Vec<Node> = Vec::new();
        let mut i: usize = 0;
        while i < self.expects.len()
            invariant
                i <= self.expects.len(),
                expects@.len() == i,
                forall|j: int| 0 <= j < i ==> (#[trigger] expects@[j])@ == self.expects@[j]@,
            decreases self.expects.len() - i,
        {
            expects.push(self.expects[i].clone());
            i = i + 1;
        }
        let r = LambdaModel { expects };
        assert(r@ =~= self@);
        r
    }
}

} // verus!
