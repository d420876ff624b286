use super::syntax_tree::{keys_of, SyntaxTree, SyntaxTreeError, SyntaxTreeView};
use super::todo_task::{TodoTask, TodoTaskView};
use crate::interner::Interner;
use crate::lexicon::lexicon::{interpretations, listing_view, lists, Lexicon, Listing};
use crate::lexicon::{Interpretation, InterpretationView};
use crate::sentence::{with_tokens, words_of, Sentence};
use crate::syntax_node::{SyntaxNode, SyntaxNodeView};
use crate::text::Text;
use vstd::prelude::*;

verus! {

/// The content of a list of syntax trees.
pub open spec fn trees_view(trees: Seq<SyntaxTree>) -> Seq<SyntaxTreeView> {
    trees.map_values(|t: SyntaxTree| t@)
}

/// The syntax trees that are still under construction.
pub struct InterpreterState {
    pub states: Vec<SyntaxTree>,
}

impl InterpreterState {
    pub fn new() -> (r: InterpreterState)
        ensures
            r.states@ == Seq::<SyntaxTree>::empty(),
    {
        InterpreterState { states: Vec::new() }
    }

    pub fn push(&mut self, tree: SyntaxTree)
        ensures
            final(self).states@ == old(self).states@.push(tree),
    {
        self.states.push(tree);
    }

    pub fn is_empty(&self) -> (r: bool)
        ensures
            r == (self.states@.len() == 0),
    {
        self.states.len() == 0
    }
}

/// The syntax trees on which nothing is left to do.
pub struct InterpreterResult {
    pub results: Vec<SyntaxTree>,
}

impl InterpreterResult {
    pub fn new() -> (r: InterpreterResult)
        ensures
            r.results@ == Seq::<SyntaxTree>::empty(),
    {
        InterpreterResult { results: Vec::new() }
    }

    pub fn push(&mut self, tree: SyntaxTree)
        ensures
            final(self).results@ == old(self).results@.push(tree),
    {
        self.results.push(tree);
    }
}

/// The tree `step.0` if the step succeeded, else nothing.
pub open spec fn kept(step: (SyntaxTreeView, Result<(), SyntaxTreeError>)) -> Seq<SyntaxTreeView> {
    if step.1 is Ok {
        seq![step.0]
    } else {
        Seq::empty()
    }
}

/// The trees that the entries from `from` to each of `interps` make of
/// `tree`, where they apply.
pub open spec fn applied(tree: SyntaxTreeView, from: SyntaxNodeView, interps: Seq<InterpretationView>) -> Seq<
    SyntaxTreeView,
>
    decreases interps.len(),
{
    if interps.len() == 0 {
        Seq::empty()
    } else {
        applied(tree, from, interps.drop_last()) + kept(tree.apply_entry(from, interps.last()))
    }
}

/// The trees that the entries of `listing` make of `tree`: those whose
/// syntax node is contained in `input`, the node that awaits
/// interpretation.
pub open spec fn applications(listing: Listing, tree: SyntaxTreeView, input: SyntaxNodeView) -> Seq<
    SyntaxTreeView,
>
    decreases listing.len(),
{
    if listing.len() == 0 {
        Seq::empty()
    } else {
        applications(listing.drop_last(), tree, input) + (if listing.last().0.subset_of(input) {
            applied(tree, listing.last().0, listing.last().1)
        } else {
            Seq::empty()
        })
    }
}

/// What one step makes of `tree`: the trees to go on with, and whether
/// `tree` is done. A projection on top of the tasks is done; a node that
/// awaits a token gets the next one; a pending application is given up if
/// it is vacuous, and every entry of the lexicon that fits is applied to
/// it. A step that fails makes no tree.
pub open spec fn run_state_spec(listing: Listing, tree: SyntaxTreeView) -> Result<
    (Seq<SyntaxTreeView>, bool),
    SyntaxTreeError,
> {
    if tree.job_done() {
        Ok((Seq::empty(), true))
    } else if tree.todo_stack.len() == 0 {
        Err(SyntaxTreeError::TodoStackEmpty)
    } else {
        match tree.todo_stack.last() {
            TodoTaskView::Project { .. } => Ok((kept(tree.do_projection()), false)),
            TodoTaskView::Val(_) => Ok((kept(tree.add_token()), false)),
            TodoTaskView::Lambda { from: input, to: output } => if !tree.has(input) {
                Err(SyntaxTreeError::NoNode(input))
            } else if !tree.has(output) {
                Err(SyntaxTreeError::NoNode(output))
            } else {
                Ok(
                    (
                        (if tree.node(output).value.subset_of(tree.node(input).value) {
                            kept(tree.delete_identity_lambda())
                        } else {
                            Seq::empty()
                        }) + applications(listing, tree, tree.node(input).value),
                        false,
                    ),
                )
            },
        }
    }
}

/// What one round makes of the trees `states`: the trees to go on with in
/// the next round, after `next`, and the trees that are done, after
/// `done`.
pub open spec fn round_spec(
    listing: Listing,
    states: Seq<SyntaxTreeView>,
    next: Seq<SyntaxTreeView>,
    done: Seq<SyntaxTreeView>,
) -> Result<(Seq<SyntaxTreeView>, Seq<SyntaxTreeView>), SyntaxTreeError>
    decreases states.len(),
{
    if states.len() == 0 {
        Ok((next, done))
    } else {
        match run_state_spec(listing, states[0]) {
            Err(e) => Err(e),
            Ok((more, finished)) => round_spec(
                listing,
                states.drop_first(),
                next + more,
                if finished {
                    done.push(states[0])
                } else {
                    done
                },
            ),
        }
    }
}

/// The trees that are done after at most `rounds` rounds from `states`,
/// after `done`.
pub open spec fn run_spec(
    listing: Listing,
    states: Seq<SyntaxTreeView>,
    done: Seq<SyntaxTreeView>,
    rounds: nat,
) -> Result<Seq<SyntaxTreeView>, SyntaxTreeError>
    decreases rounds,
{
    if states.len() == 0 {
        Ok(done)
    } else if rounds == 0 {
        Err(SyntaxTreeError::Unfinished)
    } else {
        match round_spec(listing, states, Seq::empty(), done) {
            Err(e) => Err(e),
            Ok((next, done)) => run_spec(listing, next, done, (rounds - 1) as nat),
        }
    }
}

/// Builds every syntax tree of a sentence for a target category, round by
/// round: each round takes one step on every tree under construction.
pub struct Interpreter<'a> {
    sentence: Sentence,
    target: &'a str,
    lexicon: &'a Lexicon,
}

impl<'a> Interpreter<'a> {
    /// The sentence to interpret.
    pub closed spec fn sentence(&self) -> Seq<Text> {
        self.sentence@
    }

    /// The name of the target category.
    pub closed spec fn target(&self) -> Text {
        self.target@
    }

    /// The lexicon in use.
    pub closed spec fn lexicon(&self) -> &Lexicon {
        self.lexicon
    }

    /// An interpreter of the sentence `sentence` as the category named
    /// `target`.
    pub fn new(sentence: &'a str, target: &'a str, lexicon: &'a Lexicon) -> (r: Interpreter<'a>)
        ensures
            r.sentence() == with_tokens(Seq::empty(), words_of(sentence@)),
            r.target() == target@,
            r.lexicon() == lexicon,
    {
        let parsed = match Sentence::from_str(sentence) {
            Ok(parsed) => parsed,
            Err(_) => Sentence::new(),
        };
        Interpreter { sentence: parsed, target, lexicon }
    }

    /// Appends to `states` the tree `tree` after the step `step`, if the
    /// step succeeded.
    fn keep(states: &mut InterpreterState, tree: SyntaxTree, step: Result<(), SyntaxTreeError>)
        ensures
            trees_view(final(states).states@) == trees_view(old(states).states@) + kept((tree@, step)),
    {
        let ghost content = tree@;
        match step {
            Ok(()) => {
                states.push(tree);
                assert(trees_view(states.states@) =~= trees_view(old(states).states@) + seq![content]);
            },
            Err(_) => {
                assert(trees_view(states.states@) =~= trees_view(old(states).states@) + Seq::<
                    SyntaxTreeView,
                >::empty());
            },
        }
    }

    /// Appends to `states` the trees that the entries from `from` to each
    /// of `interps` make of `tree`, where they apply.
    #[verifier::loop_isolation(false)]
    fn apply_all(states: &mut InterpreterState, tree: &SyntaxTree, from: &SyntaxNode, interps: &Vec<Interpretation>)
        ensures
            trees_view(final(states).states@) == trees_view(old(states).states@) + applied(
                tree@,
                from@,
                interpretations(interps@),
            ),
    {
        let ghost all = interpretations(interps@);
        let ghost start = trees_view(states.states@);
        let mut i: usize = 0;
        assert(all.take(0) =~= Seq::<InterpretationView>::empty());
        assert(start + Seq::<SyntaxTreeView>::empty() =~= start);
        while i < interps.len()
            invariant
                i <= interps.len(),
                trees_view(states.states@) == start + applied(tree@, from@, all.take(i as int)),
            decreases interps.len() - i,
        {
            proof {
                assert(all.take(i + 1).drop_last() =~= all.take(i as int));
                assert(all.take(i + 1).last() == interps@[i as int]@);
            }
            let ghost before = applied(tree@, from@, all.take(i as int));
            let mut new_tree = tree.clone();
            let step = new_tree.apply_entry(from, &interps[i]);
            let ghost more = kept((new_tree@, step));
            Self::keep(states, new_tree, step);
            assert((start + before) + more =~= start + (before + more));
            i = i + 1;
        }
        assert(all.take(i as int) =~= all);
    }

    /// Appends to `states` the trees that the entries of `listing` make of
    /// `tree`, whose node `input` awaits interpretation.
    #[verifier::loop_isolation(false)]
    fn apply_listing(
        states: &mut InterpreterState,
        tree: &SyntaxTree,
        input: &SyntaxNode,
        listing: &Vec<(SyntaxNode, &Vec<Interpretation>)>,
    )
        ensures
            trees_view(final(states).states@) == trees_view(old(states).states@) + applications(
                listing_view(listing@),
                tree@,
                input@,
            ),
    {
        let ghost all = listing_view(listing@);
        let ghost start = trees_view(states.states@);
        let mut i: usize = 0;
        assert(all.take(0) =~= Seq::<(SyntaxNodeView, Seq<InterpretationView>)>::empty());
        assert(start + Seq::<SyntaxTreeView>::empty() =~= start);
        while i < listing.len()
            invariant
                i <= listing.len(),
                trees_view(states.states@) == start + applications(all.take(i as int), tree@, input@),
            decreases listing.len() - i,
        {
            proof {
                assert(all.take(i + 1).drop_last() =~= all.take(i as int));
                assert(all.take(i + 1).last() == (listing@[i as int].0@, interpretations(listing@[i as int].1@)));
            }
            let ghost before = applications(all.take(i as int), tree@, input@);
            let from_sn = &listing[i].0;
            let to_interp_vec = listing[i].1;
            if from_sn.is_subset(input) {
                let ghost more = applied(tree@, from_sn@, interpretations(to_interp_vec@));
                Self::apply_all(states, tree, from_sn, to_interp_vec);
                assert((start + before) + more =~= start + (before + more));
            } else {
                assert(before + Seq::<SyntaxTreeView>::empty() =~= before);
            }
            i = i + 1;
        }
        assert(all.take(i as int) =~= all);
    }

    /// Takes one step on `tree`: the trees to go on with are appended to
    /// `states`; a tree that is done is appended to `results`.
    pub fn run_state(
        states: &mut InterpreterState,
        results: &mut InterpreterResult,
        tree: SyntaxTree,
        listing: &Vec<(SyntaxNode, &Vec<Interpretation>)>,
    ) -> (r: Result<(), SyntaxTreeError>)
        ensures
            match run_state_spec(listing_view(listing@), tree@) {
                Err(e) => r == Err::<(), SyntaxTreeError>(e) && *final(states) == *old(states)
                    && *final(results) == *old(results),
                Ok((more, finished)) => r is Ok && trees_view(final(states).states@) == trees_view(
                    old(states).states@,
                ) + more && trees_view(final(results).results@) == (if finished {
                    trees_view(old(results).results@).push(tree@)
                } else {
                    trees_view(old(results).results@)
                }),
            },
    {
        if tree.job_done() {
            let ghost content = tree@;
            results.push(tree);
            assert(trees_view(results.results@) =~= trees_view(old(results).results@).push(content));
            assert(trees_view(states.states@) + Seq::<SyntaxTreeView>::empty() =~= trees_view(
                states.states@,
            ));
            return Ok(());
        }
        let (kind, input_idx, output_idx): (u8, usize, usize) = match tree.todo_peek() {
            None => {
                return Err(SyntaxTreeError::TodoStackEmpty);
            },
            Some(TodoTask::Project { .. }) => (0, 0, 0),
            Some(TodoTask::Val(_)) => (1, 0, 0),
            Some(TodoTask::Lambda { from, to }) => (2, *from, *to),
        };
        if kind == 0 {
            let mut new_tree = tree.clone();
            let step = new_tree.do_projection();
            Self::keep(states, new_tree, step);
        } else if kind == 1 {
            let mut new_tree = tree.clone();
            let step = new_tree.add_token();
            Self::keep(states, new_tree, step);
        } else {
            let input_sn = match tree.get_node(input_idx) {
                Some(node) => node.get_value(),
                None => {
                    return Err(SyntaxTreeError::NoNode(input_idx));
                },
            };
            let output_sn = match tree.get_node(output_idx) {
                Some(node) => node.get_value(),
                None => {
                    return Err(SyntaxTreeError::NoNode(output_idx));
                },
            };
            let ghost start = trees_view(states.states@);
            let ghost first = if output_sn@.subset_of(input_sn@) {
                kept(tree@.delete_identity_lambda())
            } else {
                Seq::<SyntaxTreeView>::empty()
            };
            if output_sn.is_subset(input_sn) {
                let mut new_tree = tree.clone();
                let step = new_tree.delete_identity_lambda();
                Self::keep(states, new_tree, step);
            } else {
                assert(start + first =~= start);
            }
            Self::apply_listing(states, &tree, input_sn, listing);
            assert((start + first) + applications(listing_view(listing@), tree@, input_sn@) =~= start
                + (first + applications(listing_view(listing@), tree@, input_sn@)));
        }
        Ok(())
    }

    /// Takes one step on each of the trees `trees`.
    #[verifier::loop_isolation(false)]
    fn round(
        states: &mut InterpreterState,
        results: &mut InterpreterResult,
        trees: &Vec<SyntaxTree>,
        listing: &Vec<(SyntaxNode, &Vec<Interpretation>)>,
    ) -> (r: Result<(), SyntaxTreeError>)
        ensures
            match round_spec(
                listing_view(listing@),
                trees_view(trees@),
                trees_view(old(states).states@),
                trees_view(old(results).results@),
            ) {
                Err(e) => r == Err::<(), SyntaxTreeError>(e),
                Ok((next, done)) => r is Ok && trees_view(final(states).states@) == next
                    && trees_view(final(results).results@) == done,
            },
    {
        let ghost all = trees_view(trees@);
        let ghost goal = round_spec(
            listing_view(listing@),
            all,
            trees_view(states.states@),
            trees_view(results.results@),
        );
        let mut i: usize = 0;
        assert(all.skip(0) =~= all);
        while i < trees.len()
            invariant
                i <= trees.len(),
                goal == round_spec(
                    listing_view(listing@),
                    all.skip(i as int),
                    trees_view(states.states@),
                    trees_view(results.results@),
                ),
            decreases trees.len() - i,
        {
            proof {
                assert(all.skip(i as int)[0] == trees@[i as int]@);
                assert(all.skip(i as int).drop_first() =~= all.skip(i + 1));
            }
            Self::run_state(states, results, trees[i].clone(), listing)?;
            i = i + 1;
        }
        assert(all.skip(i as int).len() == 0);
        Ok(())
    }

    /// Every syntax tree of the sentence that is done within `rounds`
    /// rounds. The run fails if the interner makes no key of the target or
    /// of a token, if a tree under construction is not in order, or if the
    /// rounds are used up with trees still under construction.
    pub fn run<I: Interner>(&self, names: &I, rounds: usize) -> (r: Result<
        Vec<SyntaxTree>,
        SyntaxTreeError,
    >)
        ensures
            match (names.key_of(self.target()), keys_of(names, self.sentence())) {
                (Some(target), Some(tokens)) => exists|listing: Listing|
                    #[trigger] lists(listing, self.lexicon()@) && ran(
                        r,
                        run_spec(
                            listing,
                            seq![SyntaxTreeView::init(tokens, target)],
                            Seq::empty(),
                            rounds as nat,
                        ),
                    ),
                _ => r == Err::<Vec<SyntaxTree>, SyntaxTreeError>(SyntaxTreeError::FromStr),
            },
    {
        let syntax_tree = SyntaxTree::init(names, &self.sentence, self.target)?;
        let listing = self.lexicon.iter_all();
        let ghost first = syntax_tree@;
        let r = Self::run_from(syntax_tree, &listing, rounds);
        assert(lists(listing_view(listing@), self.lexicon()@) && ran(
            r,
            run_spec(listing_view(listing@), seq![first], Seq::empty(), rounds as nat),
        ));
        r
    }

    /// Every syntax tree that is done within `rounds` rounds from `tree`.
    #[verifier::loop_isolation(false)]
    fn run_from(tree: SyntaxTree, listing: &Vec<(SyntaxNode, &Vec<Interpretation>)>, rounds: usize) -> (r:
        Result<Vec<SyntaxTree>, SyntaxTreeError>)
        ensures
            ran(r, run_spec(listing_view(listing@), seq![tree@], Seq::empty(), rounds as nat)),
    {
        let ghost all = listing_view(listing@);
        let ghost first = tree@;
        let mut interpreter_state = InterpreterState::new();
        interpreter_state.push(tree);
        let mut interpreter_result = InterpreterResult::new();
        assert(trees_view(interpreter_state.states@) =~= seq![first]);
        assert(trees_view(interpreter_result.results@) =~= Seq::<SyntaxTreeView>::empty());
        let ghost goal = run_spec(all, seq![first], Seq::empty(), rounds as nat);
        let mut left = rounds;
        while !interpreter_state.is_empty()
            invariant
                goal == run_spec(
                    all,
                    trees_view(interpreter_state.states@),
                    trees_view(interpreter_result.results@),
                    left as nat,
                ),
            decreases left,
        {
            if left == 0 {
                return Err(SyntaxTreeError::Unfinished);
            }
            let mut states: Vec<SyntaxTree> = Vec::new();
            std::mem::swap(&mut states, &mut interpreter_state.states);
            assert(trees_view(interpreter_state.states@) =~= Seq::<SyntaxTreeView>::empty());
            Self::round(&mut interpreter_state, &mut interpreter_result, &states, listing)?;
            left = left - 1;
        }
        Ok(interpreter_result.results)
    }
}

/// Whether `r` is the trees `expected`, or their error.
pub open spec fn ran(r: Result<Vec<SyntaxTree>, SyntaxTreeError>, expected: Result<Seq<SyntaxTreeView>, SyntaxTreeError>) -> bool {
    match expected {
        Ok(trees) => r is Ok && trees_view(r->Ok_0@) == trees,
        Err(e) => r == Err::<Vec<SyntaxTree>, SyntaxTreeError>(e),
    }
}

} // verus!
