use super::feature_topology::TopologyView;
use super::load::category_view;
use super::notation::words_view;
use crate::lexicon::feature_topology::FeatureTopology;
use crate::direction::Direction;
use crate::interner::Interner;
use crate::lexicon::lexicon::{held_under, Lexicon};
use crate::lexicon::{Interpretation, InterpretationView};
use crate::syntax::{Feature, FeatureSet, Features, Key};
use crate::syntax_node::SyntaxNodeView;
use crate::text::Text;
use vstd::pervasive::VecAdditionalExecFns;
use vstd::prelude::*;

verus! {

/// An interpretation as a source writes it: a feature set, or a function
/// from one feature set to another with the side that it hands features on
/// from; each feature set by its words.
#[derive(Debug, PartialEq, Eq)]
pub enum Written {
    Val(Vec<String>),
    Lambda { from: Vec<String>, to: Vec<String>, projection: Direction },
}

/// The mathematical content of a [`Written`].
pub enum WrittenView {
    Val(Seq<Text>),
    Lambda { from: Seq<Text>, to: Seq<Text>, projection: Direction },
}

impl View for Written {
    type V = WrittenView;

    open spec fn view(&self) -> WrittenView {
        match self {
            Written::Val(to) => WrittenView::Val(words_view(to@)),
            Written::Lambda { from, to, projection } => WrittenView::Lambda {
                from: words_view(from@),
                to: words_view(to@),
                projection: *projection,
            },
        }
    }
}

impl WrittenView {
    /// The side that the interpretation hands features on from, if it is
    /// a function.
    pub open spec fn projection(self) -> Option<Direction> {
        match self {
            WrittenView::Val(_) => None,
            WrittenView::Lambda { projection, .. } => Some(projection),
        }
    }
}

/// The source of a lexicon of interpretations, section by section: the
/// categories with the names of their values, the functional entries with
/// the words of their feature sets, and the lexical entries with their
/// lexical items.
#[derive(Debug, PartialEq, Eq)]
pub struct Source {
    pub features: Vec<(String, Vec<String>)>,
    pub functional: Vec<(Vec<String>, Written)>,
    pub lexical: Vec<(String, Vec<String>)>,
}

/// Why a source could not be read.
#[derive(Debug, PartialEq, Eq)]
pub enum Error {
    /// The interner made no key of this word.
    CannotParse(String),
    /// A feature set could not be made of the words of an entry.
    Syntax(crate::syntax::Error),
    /// A category stood for a value that is a category, and so on, more
    /// often in a row than was allowed.
    TooDeep,
}

/// The mathematical content of an [`Error`].
pub enum Failure {
    CannotParse(Text),
    Syntax(crate::syntax::Error),
    TooDeep,
}

impl View for Error {
    type V = Failure;

    open spec fn view(&self) -> Failure {
        match self {
            Error::CannotParse(word) => Failure::CannotParse(word@),
            Error::Syntax(e) => Failure::Syntax(*e),
            Error::TooDeep => Failure::TooDeep,
        }
    }
}

/// Whether the result `r` is the failure `failure`, or success if there is
/// none.
pub open spec fn failed<T>(r: Result<T, Error>, failure: Option<Failure>) -> bool {
    match failure {
        Some(f) => r is Err && r->Err_0@ == f,
        None => r is Ok,
    }
}

/// A place of a feature in a functional entry: in the feature set that the
/// entry is for, in the argument of its function, or in what it gives.
#[derive(Debug, Clone, Copy, PartialEq, Eq)]
pub enum Place {
    Input,
    From,
    To,
}

/// The places in which a feature of a functional entry stands.
#[derive(Debug, Clone, Copy, PartialEq, Eq)]
pub struct Places {
    pub input: bool,
    pub from: bool,
    pub to: bool,
}

impl Places {
    /// The one place `place`.
    pub open spec fn only_spec(place: Place) -> Places {
        Places { input: place is Input, from: place is From, to: place is To }
    }

    /// The places `self` and the place `place`.
    pub open spec fn with_spec(self, place: Place) -> Places {
        Places {
            input: self.input || place is Input,
            from: self.from || place is From,
            to: self.to || place is To,
        }
    }

    /// The one place `place`.
    pub fn only(place: Place) -> (r: Places)
        ensures
            r == Places::only_spec(place),
    {
        match place {
            Place::Input => Places { input: true, from: false, to: false },
            Place::From => Places { input: false, from: true, to: false },
            Place::To => Places { input: false, from: false, to: true },
        }
    }

    /// The places `self` and the place `place`.
    pub fn with(self, place: Place) -> (r: Places)
        ensures
            r == self.with_spec(place),
    {
        match place {
            Place::Input => Places { input: true, from: self.from, to: self.to },
            Place::From => Places { input: self.input, from: true, to: self.to },
            Place::To => Places { input: self.input, from: self.from, to: true },
        }
    }
}

/// The features of a functional entry, each with its places, in the order
/// in which they were first written.
pub type Marks = Seq<(Key, Places)>;

/// The first position of the feature `key` in `marks`; the length of
/// `marks` if it is not there.
pub open spec fn position(marks: Marks, key: Key) -> int
    decreases marks.len(),
{
    if marks.len() == 0 {
        0
    } else if marks[0].0 == key {
        0
    } else {
        1 + position(marks.drop_first(), key)
    }
}

/// The first position in `marks` of a feature that is a category of
/// `topology`; the length of `marks` if there is none.
pub open spec fn first_category(topology: TopologyView, marks: Marks) -> int
    decreases marks.len(),
{
    if marks.len() == 0 {
        0
    } else if topology.categories.contains_key(marks[0].0) {
        0
    } else {
        1 + first_category(topology, marks.drop_first())
    }
}

/// The position of a feature is the first at which it stands.
pub proof fn lemma_position(marks: Marks, key: Key, i: int)
    requires
        0 <= i <= marks.len(),
        forall|j: int| 0 <= j < i ==> (#[trigger] marks[j]).0 != key,
        i < marks.len() ==> marks[i].0 == key,
    ensures
        position(marks, key) == i,
    decreases i,
{
    if i > 0 {
        assert(marks[0].0 != key);
        let rest = marks.drop_first();
        assert forall|j: int| 0 <= j < i - 1 implies (#[trigger] rest[j]).0 != key by {
            assert(rest[j] == marks[j + 1]);
        }
        lemma_position(rest, key, i - 1);
    }
}

/// The first category is the first feature that is a category.
pub proof fn lemma_first_category(topology: TopologyView, marks: Marks, i: int)
    requires
        0 <= i <= marks.len(),
        forall|j: int| 0 <= j < i ==> !topology.categories.contains_key((#[trigger] marks[j]).0),
        i < marks.len() ==> topology.categories.contains_key(marks[i].0),
    ensures
        first_category(topology, marks) == i,
    decreases i,
{
    if i > 0 {
        assert(!topology.categories.contains_key(marks[0].0));
        let rest = marks.drop_first();
        assert forall|j: int| 0 <= j < i - 1 implies !topology.categories.contains_key(
            (#[trigger] rest[j]).0,
        ) by {
            assert(rest[j] == marks[j + 1]);
        }
        lemma_first_category(topology, rest, i - 1);
    }
}

/// The marks `marks` with the feature `key` in the places `places`: in
/// place of what it had, or as the last of the marks if it had none.
pub open spec fn put(marks: Marks, key: Key, places: Places) -> Marks {
    let i = position(marks, key);
    if i < marks.len() {
        marks.update(i, (key, places))
    } else {
        marks.push((key, places))
    }
}

/// The marks `marks` with the feature `key` in the place `place` too.
pub open spec fn marked(marks: Marks, key: Key, place: Place) -> Marks {
    let i = position(marks, key);
    if i < marks.len() {
        marks.update(i, (key, marks[i].1.with_spec(place)))
    } else {
        marks.push((key, Places::only_spec(place)))
    }
}

/// The marks `marks` with the value `value` for the category at `i`: the
/// value takes the places of the category, whatever places it had.
pub open spec fn replaced(marks: Marks, i: int, value: Key) -> Marks {
    put(marks.remove(i), value, marks[i].1)
}

/// The marks `marks` with each of `words` in the place `place`, up to the
/// first word of which the interner makes no key.
pub open spec fn with_words<I: Interner>(names: &I, marks: Marks, place: Place, words: Seq<Text>) -> (
    Marks,
    Option<Failure>,
)
    decreases words.len(),
{
    if words.len() == 0 {
        (marks, None)
    } else {
        match names.key_of(words[0]) {
            None => (marks, Some(Failure::CannotParse(words[0]))),
            Some(key) => with_words(names, marked(marks, key, place), place, words.drop_first()),
        }
    }
}

/// The marks of the functional entry for the feature set written as
/// `input`, with the interpretation `written`: the words of the feature
/// set first, then those of the argument, then those of what is given.
pub open spec fn entry_marks<I: Interner>(names: &I, input: Seq<Text>, written: WrittenView) -> (
    Marks,
    Option<Failure>,
) {
    let first = with_words(names, Seq::empty(), Place::Input, input);
    if first.1 is Some {
        first
    } else {
        match written {
            WrittenView::Val(to) => with_words(names, first.0, Place::To, to),
            WrittenView::Lambda { from, to, .. } => {
                let second = with_words(names, first.0, Place::From, from);
                if second.1 is Some {
                    second
                } else {
                    with_words(names, second.0, Place::To, to)
                }
            },
        }
    }
}

/// The feature set `fs` with the feature `feature`, if it is wanted there:
/// a category without a value is no feature, and a category that `fs`
/// defines cannot be defined again.
pub open spec fn added(fs: Features, feature: Feature, wanted: bool) -> Result<
    Features,
    crate::syntax::Error,
> {
    if !wanted {
        Ok(fs)
    } else if feature is Cat {
        Err(crate::syntax::Error::FeatureIsCategory)
    } else if fs.contains_key(feature.category()) {
        Err(crate::syntax::Error::CategoryAlreadyHasValue)
    } else {
        Ok(fs.insert(feature.category(), feature.value()))
    }
}

/// The three feature sets of an entry: the one that it is for, the
/// argument of its function, and what it gives.
pub struct Sets {
    pub input: Features,
    pub from: Features,
    pub to: Features,
}

/// The feature sets `sets` with the feature that `mark` stands for, in
/// each of its places.
pub open spec fn with_mark(topology: TopologyView, sets: Sets, mark: (Key, Places)) -> Result<
    Sets,
    crate::syntax::Error,
> {
    let feature = topology.feature_of(mark.0);
    match added(sets.input, feature, mark.1.input) {
        Err(e) => Err(e),
        Ok(input) => match added(sets.from, feature, mark.1.from) {
            Err(e) => Err(e),
            Ok(from) => match added(sets.to, feature, mark.1.to) {
                Err(e) => Err(e),
                Ok(to) => Ok(Sets { input, from, to }),
            },
        },
    }
}

/// The feature sets `sets` with the features of `marks`, one after the
/// other.
pub open spec fn with_marks(topology: TopologyView, sets: Sets, marks: Marks) -> Result<
    Sets,
    crate::syntax::Error,
>
    decreases marks.len(),
{
    if marks.len() == 0 {
        Ok(sets)
    } else {
        match with_mark(topology, sets, marks[0]) {
            Err(e) => Err(e),
            Ok(next) => with_marks(topology, next, marks.drop_first()),
        }
    }
}

/// What is added to a lexicon: an interpretation for a syntax node.
pub type Added = (SyntaxNodeView, InterpretationView);

/// What reading added, in order, and why the reading ended, if it failed.
pub type Outcome = (Seq<Added>, Option<Failure>);

/// The outcome `first`, followed by `rest` unless `first` failed.
pub open spec fn and_then(first: Outcome, rest: Outcome) -> Outcome {
    if first.1 is Some {
        first
    } else {
        (first.0 + rest.0, rest.1)
    }
}

/// The lexicon content `m` with `added`, one after the other: each
/// interpretation comes after those that its syntax node has.
pub open spec fn with_added(
    m: Map<SyntaxNodeView, Seq<InterpretationView>>,
    added: Seq<Added>,
) -> Map<SyntaxNodeView, Seq<InterpretationView>>
    decreases added.len(),
{
    if added.len() == 0 {
        m
    } else {
        let before = with_added(m, added.drop_last());
        before.insert(added.last().0, held_under(before, added.last().0).push(added.last().1))
    }
}

/// To add one list and then another is to add the two as one.
pub proof fn lemma_with_added(
    m: Map<SyntaxNodeView, Seq<InterpretationView>>,
    a: Seq<Added>,
    b: Seq<Added>,
)
    ensures
        with_added(with_added(m, a), b) == with_added(m, a + b),
    decreases b.len(),
{
    if b.len() == 0 {
        assert(a + b =~= a);
    } else {
        assert((a + b).drop_last() =~= a + b.drop_last());
        assert((a + b).last() == b.last());
        lemma_with_added(m, a, b.drop_last());
    }
}

/// To add one interpretation is to put it after those of its syntax node.
pub proof fn lemma_with_one(m: Map<SyntaxNodeView, Seq<InterpretationView>>, one: Added)
    ensures
        with_added(m, seq![one]) == m.insert(one.0, held_under(m, one.0).push(one.1)),
{
    let nothing = seq![one].drop_last();
    assert(nothing.len() == 0);
    assert(with_added(m, nothing) == m);
    assert(seq![one].last() == one);
}

/// What the entry with the feature sets `sets` adds: for the feature set
/// that it is for, what it gives, or the function from its argument to
/// what it gives.
pub open spec fn entry_of(sets: Sets, projection: Option<Direction>) -> Added {
    (
        SyntaxNodeView::Feat(sets.input),
        match projection {
            None => InterpretationView::Val(sets.to),
            Some(d) => InterpretationView::Lambda { from: sets.from, to: sets.to, projection: d },
        },
    )
}

/// What the entry with the marks `marks` adds. While a feature is the name
/// of a category, the first such feature stands for each value of the
/// category in turn, at most `depth` times in a row; marks without the
/// name of a category add the one entry that their features make up.
pub open spec fn expansion(
    topology: TopologyView,
    marks: Marks,
    projection: Option<Direction>,
    depth: nat,
) -> Outcome
    decreases depth, 0nat,
{
    let i = first_category(topology, marks);
    if 0 <= i < marks.len() {
        if depth == 0 {
            (Seq::empty(), Some(Failure::TooDeep))
        } else {
            expansion_each(
                topology,
                marks,
                i,
                topology.values_of(marks[i].0),
                projection,
                (depth - 1) as nat,
            )
        }
    } else {
        match with_marks(
            topology,
            Sets { input: Map::empty(), from: Map::empty(), to: Map::empty() },
            marks,
        ) {
            Err(e) => (Seq::empty(), Some(Failure::Syntax(e))),
            Ok(sets) => (seq![entry_of(sets, projection)], None),
        }
    }
}

/// What the entry with the marks `marks` adds with each of `values`, in
/// turn, for the category at `i`.
pub open spec fn expansion_each(
    topology: TopologyView,
    marks: Marks,
    i: int,
    values: Seq<Key>,
    projection: Option<Direction>,
    depth: nat,
) -> Outcome
    decreases depth, 1 + values.len(),
{
    if values.len() == 0 {
        (Seq::empty(), None)
    } else {
        and_then(
            expansion(topology, replaced(marks, i, values[0]), projection, depth),
            expansion_each(topology, marks, i, values.drop_first(), projection, depth),
        )
    }
}

/// Whether no value of a category of `topology` is a category itself.
pub open spec fn flat(topology: TopologyView) -> bool {
    forall|c: Key, i: int|
        topology.categories.contains_key(c) && 0 <= i < topology.categories[c].len()
            ==> !topology.categories.contains_key(#[trigger] topology.categories[c][i])
}

/// The number of features of `marks` that are categories of `topology`.
pub open spec fn categories_in(topology: TopologyView, marks: Marks) -> nat
    decreases marks.len(),
{
    if marks.len() == 0 {
        0
    } else {
        categories_in(topology, marks.drop_last()) + (if topology.categories.contains_key(
            marks.last().0,
        ) {
            1nat
        } else {
            0nat
        })
    }
}

/// Marks with the same features have the same number of categories.
pub proof fn lemma_same_features(topology: TopologyView, a: Marks, b: Marks)
    requires
        a.len() == b.len(),
        forall|i: int| 0 <= i < a.len() ==> (#[trigger] a[i]).0 == b[i].0,
    ensures
        categories_in(topology, a) == categories_in(topology, b),
    decreases a.len(),
{
    if a.len() > 0 {
        assert(a.last().0 == b[b.len() - 1].0);
        assert forall|i: int| 0 <= i < a.drop_last().len() implies (#[trigger] a.drop_last()[i]).0
            == b.drop_last()[i].0 by {
            assert(a[i].0 == b[i].0);
        }
        lemma_same_features(topology, a.drop_last(), b.drop_last());
    }
}

/// Without one of its categories, a list of marks has one category less.
pub proof fn lemma_without_category(topology: TopologyView, marks: Marks, i: int)
    requires
        0 <= i < marks.len(),
        topology.categories.contains_key(marks[i].0),
    ensures
        categories_in(topology, marks) == categories_in(topology, marks.remove(i)) + 1,
    decreases marks.len(),
{
    if i == marks.len() - 1 {
        assert(marks.remove(i) =~= marks.drop_last());
    } else {
        assert(marks.remove(i).drop_last() =~= marks.drop_last().remove(i));
        assert(marks.remove(i).last() == marks.last());
        lemma_without_category(topology, marks.drop_last(), i);
    }
}

/// Where a feature has a position, it stands there.
pub proof fn lemma_stands_at_position(marks: Marks, key: Key)
    ensures
        0 <= position(marks, key) <= marks.len(),
        position(marks, key) < marks.len() ==> marks[position(marks, key)].0 == key,
    decreases marks.len(),
{
    if marks.len() > 0 && marks[0].0 != key {
        let rest = marks.drop_first();
        lemma_stands_at_position(rest, key);
        if position(rest, key) < rest.len() {
            assert(rest[position(rest, key)] == marks[position(rest, key) + 1]);
        }
    }
}

/// Where marks have a first category, a category stands there.
pub proof fn lemma_category_at_first(topology: TopologyView, marks: Marks)
    ensures
        0 <= first_category(topology, marks) <= marks.len(),
        first_category(topology, marks) < marks.len() ==> topology.categories.contains_key(
            marks[first_category(topology, marks)].0,
        ),
    decreases marks.len(),
{
    if marks.len() > 0 && !topology.categories.contains_key(marks[0].0) {
        let rest = marks.drop_first();
        lemma_category_at_first(topology, rest);
        if first_category(topology, rest) < rest.len() {
            assert(rest[first_category(topology, rest)] == marks[first_category(topology, rest) + 1]);
        }
    }
}

/// With a value that is no category for one of its categories, a list of
/// marks has one category less.
pub proof fn lemma_replaced_category(topology: TopologyView, marks: Marks, i: int, value: Key)
    requires
        0 <= i < marks.len(),
        topology.categories.contains_key(marks[i].0),
        !topology.categories.contains_key(value),
    ensures
        categories_in(topology, marks) == categories_in(topology, replaced(marks, i, value)) + 1,
{
    let rest = marks.remove(i);
    lemma_without_category(topology, marks, i);
    lemma_stands_at_position(rest, value);
    let j = position(rest, value);
    if j < rest.len() {
        lemma_same_features(topology, rest, rest.update(j, (value, marks[i].1)));
    } else {
        assert(rest.push((value, marks[i].1)).drop_last() =~= rest);
    }
}

/// What fails of two outcomes in a row is what fails of the one or of the
/// other.
pub proof fn lemma_and_then_fails(first: Outcome, rest: Outcome)
    ensures
        and_then(first, rest).1 == first.1 || and_then(first, rest).1 == rest.1,
{
}

/// In a topology in which no value is a category, an entry is never too
/// deep for a depth of as many categories as it names.
pub proof fn lemma_flat_is_never_too_deep(
    topology: TopologyView,
    marks: Marks,
    projection: Option<Direction>,
    depth: nat,
)
    requires
        flat(topology),
        depth >= categories_in(topology, marks),
    ensures
        expansion(topology, marks, projection, depth).1 != Some(Failure::TooDeep),
    decreases depth, 0nat,
{
    lemma_category_at_first(topology, marks);
    let i = first_category(topology, marks);
    if 0 <= i < marks.len() {
        lemma_without_category(topology, marks, i);
        lemma_flat_each(
            topology,
            marks,
            i,
            topology.values_of(marks[i].0),
            projection,
            (depth - 1) as nat,
        );
    }
}

/// In a topology in which no value is a category, an entry with a value
/// for one of its categories is never too deep for a depth of as many
/// categories as it names besides.
pub proof fn lemma_flat_each(
    topology: TopologyView,
    marks: Marks,
    i: int,
    values: Seq<Key>,
    projection: Option<Direction>,
    depth: nat,
)
    requires
        flat(topology),
        0 <= i < marks.len(),
        topology.categories.contains_key(marks[i].0),
        forall|k: int| 0 <= k < values.len() ==> !topology.categories.contains_key(#[trigger] values[k]),
        depth + 1 >= categories_in(topology, marks),
    ensures
        expansion_each(topology, marks, i, values, projection, depth).1 != Some(Failure::TooDeep),
    decreases depth, 1 + values.len(),
{
    if values.len() > 0 {
        assert(!topology.categories.contains_key(values[0]));
        lemma_replaced_category(topology, marks, i, values[0]);
        lemma_flat_is_never_too_deep(topology, replaced(marks, i, values[0]), projection, depth);
        assert forall|k: int| 0 <= k < values.drop_first().len() implies !topology.categories.contains_key(
            #[trigger] values.drop_first()[k],
        ) by {
            assert(values.drop_first()[k] == values[k + 1]);
        }
        lemma_flat_each(topology, marks, i, values.drop_first(), projection, depth);
        lemma_and_then_fails(
            expansion(topology, replaced(marks, i, values[0]), projection, depth),
            expansion_each(topology, marks, i, values.drop_first(), projection, depth),
        );
    }
}

/// The position of the feature `key` in `marks`.
fn find(marks: &Vec<(Key, Places)>, key: Key) -> (i: usize)
    ensures
        i == position(marks@, key),
        i <= marks.len(),
{
    let mut i: usize = 0;
    while i < marks.len()
        invariant
            i <= marks.len(),
            forall|j: int| 0 <= j < i ==> (#[trigger] marks@[j]).0 != key,
        decreases marks.len() - i,
    {
        if marks[i].0 == key {
            proof {
                lemma_position(marks@, key, i as int);
            }
            return i;
        }
        i = i + 1;
    }
    proof {
        lemma_position(marks@, key, i as int);
    }
    i
}

/// Puts the feature `key` in the places `places`.
fn put_mark(marks: &mut Vec<(Key, Places)>, key: Key, places: Places)
    ensures
        final(marks)@ == put(old(marks)@, key, places),
{
    let i = find(marks, key);
    if i < marks.len() {
        marks.set(i, (key, places));
    } else {
        marks.push((key, places));
    }
}

/// Puts the feature `key` in the place `place` too.
fn mark(marks: &mut Vec<(Key, Places)>, key: Key, place: Place)
    ensures
        final(marks)@ == marked(old(marks)@, key, place),
{
    let i = find(marks, key);
    if i < marks.len() {
        let places = marks[i].1.with(place);
        marks.set(i, (key, places));
    } else {
        marks.push((key, Places::only(place)));
    }
}

/// The marks `marks` with `value` for the category at `i`.
fn replace(marks: &Vec<(Key, Places)>, i: usize, value: Key) -> (r: Vec<(Key, Places)>)
    requires
        i < marks.len(),
    ensures
        r@ == replaced(marks@, i as int, value),
{
    let mut r: Vec<(Key, Places)> = Vec::new();
    let mut j: usize = 0;
    while j < marks.len()
        invariant
            j <= marks.len(),
            i < marks.len(),
            r@ == (if j <= i {
                marks@.take(j as int)
            } else {
                marks@.take(j as int).remove(i as int)
            }),
        decreases marks.len() - j,
    {
        if j != i {
            r.push(marks[j]);
        }
        proof {
            let next = marks@.take(j + 1);
            if j < i {
                assert(next =~= marks@.take(j as int).push(marks@[j as int]));
            } else if j == i {
                assert(next.remove(i as int) =~= marks@.take(j as int));
            } else {
                assert(next.remove(i as int) =~= marks@.take(j as int).remove(i as int).push(
                    marks@[j as int],
                ));
            }
        }
        j = j + 1;
    }
    assert(marks@.take(j as int) =~= marks@);
    put_mark(&mut r, value, marks[i].1);
    r
}

/// Marks each of `words` in the place `loc`.
#[verifier::loop_isolation(false)]
pub fn extract_features<I: Interner>(
    names: &I,
    func_entry: &mut Vec<(Key, Places)>,
    loc: Place,
    words: &Vec<String>,
) -> (r: Result<(), Error>)
    ensures
        final(func_entry)@ == with_words(names, old(func_entry)@, loc, words_view(words@)).0,
        failed(r, with_words(names, old(func_entry)@, loc, words_view(words@)).1),
{
    let ghost all = words_view(words@);
    let ghost goal = with_words(names, func_entry@, loc, all);
    assert(all.skip(0) =~= all);
    let mut i: usize = 0;
    while i < words.len()
        invariant
            i <= words.len(),
            all == words_view(words@),
            goal == with_words(names, func_entry@, loc, all.skip(i as int)),
        decreases words.len() - i,
    {
        assert(all.skip(i as int)[0] == words@[i as int]@);
        assert(all.skip(i as int).drop_first() =~= all.skip(i + 1));
        match names.intern(words[i].as_str()) {
            Some(key) => mark(func_entry, key, loc),
            None => {
                return Err(Error::CannotParse(words[i].clone()));
            },
        }
        i = i + 1;
    }
    assert(all.skip(i as int).len() == 0);
    Ok(())
}

/// Adds `feature` to `fs` if it is wanted there.
fn add_wanted(fs: &mut FeatureSet, feature: Feature, wanted: bool) -> (r: Result<(), crate::syntax::Error>)
    ensures
        match added(old(fs)@, feature, wanted) {
            Ok(next) => r is Ok && final(fs)@ == next,
            Err(e) => r == Err::<(), crate::syntax::Error>(e),
        },
{
    if wanted {
        fs.insert_feature(feature)
    } else {
        Ok(())
    }
}

/// The feature sets that the features of `marks` make up.
#[verifier::loop_isolation(false)]
pub fn feature_sets(topology: &FeatureTopology, marks: &Vec<(Key, Places)>) -> (r: Result<
    (FeatureSet, FeatureSet, FeatureSet),
    crate::syntax::Error,
>)
    ensures
        match with_marks(
            topology@,
            Sets { input: Map::empty(), from: Map::empty(), to: Map::empty() },
            marks@,
        ) {
            Ok(sets) => r is Ok && (Sets { input: r->Ok_0.0@, from: r->Ok_0.1@, to: r->Ok_0.2@ })
                == sets,
            Err(e) => r == Err::<(FeatureSet, FeatureSet, FeatureSet), crate::syntax::Error>(e),
        },
{
    let mut input = FeatureSet::new();
    let mut from = FeatureSet::new();
    let mut to = FeatureSet::new();
    let ghost goal = with_marks(
        topology@,
        Sets { input: Map::empty(), from: Map::empty(), to: Map::empty() },
        marks@,
    );
    assert(marks@.skip(0) =~= marks@);
    let mut i: usize = 0;
    while i < marks.len()
        invariant
            i <= marks.len(),
            goal == with_marks(
                topology@,
                Sets { input: input@, from: from@, to: to@ },
                marks@.skip(i as int),
            ),
        decreases marks.len() - i,
    {
        assert(marks@.skip(i as int)[0] == marks@[i as int]);
        assert(marks@.skip(i as int).drop_first() =~= marks@.skip(i + 1));
        let (key, places) = marks[i];
        let feature = topology.to_feature(key);
        add_wanted(&mut input, feature, places.input)?;
        add_wanted(&mut from, feature, places.from)?;
        add_wanted(&mut to, feature, places.to)?;
        i = i + 1;
    }
    assert(marks@.skip(i as int).len() == 0);
    Ok((input, from, to))
}

/// The topology `topology` with the values `values` of `category`, each as
/// often as it is written, up to the first that cannot be read.
pub open spec fn with_values<I: Interner>(
    names: &I,
    topology: TopologyView,
    category: Key,
    values: Seq<Text>,
) -> (TopologyView, Option<Text>)
    decreases values.len(),
{
    if values.len() == 0 {
        (topology, None)
    } else {
        match names.key_of(values[0]) {
            None => (topology, Some(values[0])),
            Some(value) => with_values(
                names,
                topology.insert_again(category, value),
                category,
                values.drop_first(),
            ),
        }
    }
}

/// The topology `topology` with the categories `entries`, up to the first
/// word that cannot be read.
pub open spec fn with_categories<I: Interner>(
    names: &I,
    topology: TopologyView,
    entries: Seq<(String, Vec<String>)>,
) -> (TopologyView, Option<Text>)
    decreases entries.len(),
{
    if entries.len() == 0 {
        (topology, None)
    } else {
        match names.key_of(category_view(entries[0]).0) {
            None => (topology, Some(category_view(entries[0]).0)),
            Some(category) => {
                let read = with_values(names, topology, category, category_view(entries[0]).1);
                if read.1 is Some {
                    read
                } else {
                    with_categories(names, read.0, entries.drop_first())
                }
            },
        }
    }
}

/// What the functional entry `entry` adds: what its marks add, if every
/// word of it can be read.
pub open spec fn functional_outcome<I: Interner>(
    names: &I,
    topology: TopologyView,
    entry: (Seq<Text>, WrittenView),
    depth: nat,
) -> Outcome {
    let marks = entry_marks(names, entry.0, entry.1);
    if marks.1 is Some {
        (Seq::empty(), marks.1)
    } else {
        expansion(topology, marks.0, entry.1.projection(), depth)
    }
}

/// The content of a functional entry as it is written.
pub open spec fn functional_view(entry: (Vec<String>, Written)) -> (Seq<Text>, WrittenView) {
    (words_view(entry.0@), entry.1@)
}

/// What the functional entries `entries` add, one after the other.
pub open spec fn functional_section<I: Interner>(
    names: &I,
    topology: TopologyView,
    entries: Seq<(Vec<String>, Written)>,
    depth: nat,
) -> Outcome
    decreases entries.len(),
{
    if entries.len() == 0 {
        (Seq::empty(), None)
    } else {
        and_then(
            functional_outcome(names, topology, functional_view(entries[0]), depth),
            functional_section(names, topology, entries.drop_first(), depth),
        )
    }
}

/// The feature set `fs` with the features written as `words`, one after
/// the other.
pub open spec fn with_features<I: Interner>(
    names: &I,
    topology: TopologyView,
    fs: Features,
    words: Seq<Text>,
) -> Result<Features, Failure>
    decreases words.len(),
{
    if words.len() == 0 {
        Ok(fs)
    } else {
        match names.key_of(words[0]) {
            None => Err(Failure::CannotParse(words[0])),
            Some(key) => match added(fs, topology.feature_of(key), true) {
                Err(e) => Err(Failure::Syntax(e)),
                Ok(next) => with_features(names, topology, next, words.drop_first()),
            },
        }
    }
}

/// What the lexical entry `entry` adds: for its lexical item, the feature
/// set of its words.
pub open spec fn lexical_outcome<I: Interner>(
    names: &I,
    topology: TopologyView,
    entry: (Text, Seq<Text>),
) -> Outcome {
    match names.key_of(entry.0) {
        None => (Seq::empty(), Some(Failure::CannotParse(entry.0))),
        Some(lexi) => match with_features(names, topology, Map::empty(), entry.1) {
            Err(f) => (Seq::empty(), Some(f)),
            Ok(fs) => (seq![(SyntaxNodeView::Lexi(lexi), InterpretationView::Val(fs))], None),
        },
    }
}

/// The content of a lexical entry as it is written.
pub open spec fn lexical_view(entry: (String, Vec<String>)) -> (Text, Seq<Text>) {
    (entry.0@, words_view(entry.1@))
}

/// What the lexical entries `entries` add, one after the other.
pub open spec fn lexical_section<I: Interner>(
    names: &I,
    topology: TopologyView,
    entries: Seq<(String, Vec<String>)>,
) -> Outcome
    decreases entries.len(),
{
    if entries.len() == 0 {
        (Seq::empty(), None)
    } else {
        and_then(
            lexical_outcome(names, topology, lexical_view(entries[0])),
            lexical_section(names, topology, entries.drop_first()),
        )
    }
}

/// What the source `source` adds to a lexicon: the categories are read
/// first, then the functional entries, then the lexical ones.
pub open spec fn source_outcome<I: Interner>(names: &I, source: Source, depth: nat) -> Outcome {
    let read = with_categories(names, TopologyView::empty(), source.features@);
    match read.1 {
        Some(w) => (Seq::empty(), Some(Failure::CannotParse(w))),
        None => and_then(
            functional_section(names, read.0, source.functional@, depth),
            lexical_section(names, read.0, source.lexical@),
        ),
    }
}

/// Reading on after `log` was added: what the next part adds comes after
/// it, and the rest only if the next part did not fail.
pub proof fn lemma_and_then(log: Seq<Added>, next: Outcome, rest: Outcome)
    ensures
        next.1 is Some ==> and_then((log, None), and_then(next, rest)) == (log + next.0, next.1),
        next.1 is None ==> and_then((log, None), and_then(next, rest)) == and_then(
            (log + next.0, None),
            rest,
        ),
{
    assert(log + (next.0 + rest.0) =~= (log + next.0) + rest.0);
}

/// The position of the first feature of `marks` that is a category.
fn find_category(topology: &FeatureTopology, marks: &Vec<(Key, Places)>) -> (i: usize)
    ensures
        i == first_category(topology@, marks@),
        i <= marks.len(),
{
    let mut i: usize = 0;
    while i < marks.len()
        invariant
            i <= marks.len(),
            forall|j: int| 0 <= j < i ==> !topology@.categories.contains_key((#[trigger] marks@[j]).0),
        decreases marks.len() - i,
    {
        if topology.is_category(&marks[i].0) {
            proof {
                lemma_first_category(topology@, marks@, i as int);
            }
            return i;
        }
        i = i + 1;
    }
    proof {
        lemma_first_category(topology@, marks@, i as int);
    }
    i
}

/// Adds to `lexicon` what the entry with the marks `func_entry` stands
/// for, with at most `depth` categories in a row. What was added before a
/// failure stays.
#[verifier::loop_isolation(false)]
pub fn parse_entry(
    lexicon: &mut Lexicon,
    func_entry: &Vec<(Key, Places)>,
    projection: Option<Direction>,
    topology: &FeatureTopology,
    depth: usize,
) -> (r: Result<(), Error>)
    ensures
        final(lexicon)@ == with_added(
            old(lexicon)@,
            expansion(topology@, func_entry@, projection, depth as nat).0,
        ),
        failed(r, expansion(topology@, func_entry@, projection, depth as nat).1),
    decreases depth,
{
    let ghost start = lexicon@;
    let i = find_category(topology, func_entry);
    if i < func_entry.len() {
        if depth == 0 {
            return Err(Error::TooDeep);
        }
        let values = match topology.get_from_category(&func_entry[i].0) {
            Some(values) => values,
            None => {
                return Ok(());
            },
        };
        let ghost all = values@;
        let ghost log = Seq::<Added>::empty();
        let ghost goal = expansion_each(
            topology@,
            func_entry@,
            i as int,
            all,
            projection,
            (depth - 1) as nat,
        );
        assert(all.skip(0) =~= all);
        assert(log + goal.0 =~= goal.0);
        let mut k: usize = 0;
        while k < values.len()
            invariant
                k <= values.len(),
                lexicon@ == with_added(start, log),
                goal == and_then(
                    (log, None),
                    expansion_each(
                        topology@,
                        func_entry@,
                        i as int,
                        all.skip(k as int),
                        projection,
                        (depth - 1) as nat,
                    ),
                ),
            decreases values.len() - k,
        {
            assert(all.skip(k as int)[0] == all[k as int]);
            assert(all.skip(k as int).drop_first() =~= all.skip(k + 1));
            let next = replace(func_entry, i, values[k]);
            let ghost next_outcome = expansion(topology@, next@, projection, (depth - 1) as nat);
            let r = parse_entry(lexicon, &next, projection, topology, depth - 1);
            proof {
                lemma_with_added(start, log, next_outcome.0);
                lemma_and_then(
                    log,
                    next_outcome,
                    expansion_each(
                        topology@,
                        func_entry@,
                        i as int,
                        all.skip(k + 1),
                        projection,
                        (depth - 1) as nat,
                    ),
                );
                log = log + next_outcome.0;
            }
            if let Err(e) = r {
                return Err(e);
            }
            k = k + 1;
        }
        assert(all.skip(k as int).len() == 0);
        assert(log + Seq::<Added>::empty() =~= log);
        Ok(())
    } else {
        match feature_sets(topology, func_entry) {
            Err(e) => Err(Error::Syntax(e)),
            Ok((input, from, to)) => {
                let interp = match projection {
                    None => Interpretation::Val(to),
                    Some(d) => Interpretation::Lambda { from, to, projection: d },
                };
                let ghost one = (SyntaxNodeView::Feat(input@), interp@);
                lexicon.insert_functional(input, interp);
                proof {
                    lemma_with_one(start, one);
                }
                Ok(())
            },
        }
    }
}

/// The marks of the functional entry `entry`.
fn marks_of<I: Interner>(names: &I, entry: &(Vec<String>, Written)) -> (r: Result<
    Vec<(Key, Places)>,
    Error,
>)
    ensures
        failed(r, entry_marks(names, words_view(entry.0@), entry.1@).1),
        r is Ok ==> r->Ok_0@ == entry_marks(names, words_view(entry.0@), entry.1@).0,
{
    let mut marks: Vec<(Key, Places)> = Vec::new();
    extract_features(names, &mut marks, Place::Input, &entry.0)?;
    match &entry.1 {
        Written::Val(to) => {
            extract_features(names, &mut marks, Place::To, to)?;
        },
        Written::Lambda { from, to, .. } => {
            extract_features(names, &mut marks, Place::From, from)?;
            extract_features(names, &mut marks, Place::To, to)?;
        },
    }
    Ok(marks)
}

/// Reads the functional entries `entries` into `lexicon`, with at most
/// `depth` categories in a row in an entry. What was added before a
/// failure stays.
#[verifier::loop_isolation(false)]
pub fn parse_functional_entries<I: Interner>(
    lexicon: &mut Lexicon,
    names: &I,
    entries: &Vec<(Vec<String>, Written)>,
    topology: &FeatureTopology,
    depth: usize,
) -> (r: Result<(), Error>)
    ensures
        final(lexicon)@ == with_added(
            old(lexicon)@,
            functional_section(names, topology@, entries@, depth as nat).0,
        ),
        failed(r, functional_section(names, topology@, entries@, depth as nat).1),
{
    let ghost start = lexicon@;
    let ghost log = Seq::<Added>::empty();
    let ghost goal = functional_section(names, topology@, entries@, depth as nat);
    assert(entries@.skip(0) =~= entries@);
    assert(log + goal.0 =~= goal.0);
    let mut i: usize = 0;
    while i < entries.len()
        invariant
            i <= entries.len(),
            lexicon@ == with_added(start, log),
            goal == and_then(
                (log, None),
                functional_section(names, topology@, entries@.skip(i as int), depth as nat),
            ),
        decreases entries.len() - i,
    {
        assert(entries@.skip(i as int)[0] == entries@[i as int]);
        assert(entries@.skip(i as int).drop_first() =~= entries@.skip(i + 1));
        let ghost next = functional_outcome(
            names,
            topology@,
            functional_view(entries@[i as int]),
            depth as nat,
        );
        proof {
            lemma_with_added(start, log, next.0);
            lemma_and_then(
                log,
                next,
                functional_section(names, topology@, entries@.skip(i + 1), depth as nat),
            );
        }
        let marks = match marks_of(names, &entries[i]) {
            Ok(marks) => marks,
            Err(e) => {
                assert(log + Seq::<Added>::empty() =~= log);
                return Err(e);
            },
        };
        let projection = match &entries[i].1 {
            Written::Val(_) => None,
            Written::Lambda { projection, .. } => Some(*projection),
        };
        let r = parse_entry(lexicon, &marks, projection, topology, depth);
        proof {
            log = log + next.0;
        }
        if let Err(e) = r {
            return Err(e);
        }
        i = i + 1;
    }
    assert(entries@.skip(i as int).len() == 0);
    assert(log + Seq::<Added>::empty() =~= log);
    Ok(())
}

/// The feature set of the features written as `words`.
#[verifier::loop_isolation(false)]
pub fn parse_feature_set<I: Interner>(names: &I, words: &Vec<String>, topology: &FeatureTopology) -> (r:
    Result<FeatureSet, Error>)
    ensures
        match with_features(names, topology@, Map::empty(), words_view(words@)) {
            Ok(fs) => r is Ok && r->Ok_0@ == fs,
            Err(f) => r is Err && r->Err_0@ == f,
        },
{
    let ghost all = words_view(words@);
    let mut fs = FeatureSet::new();
    let ghost goal = with_features(names, topology@, fs@, all);
    assert(all.skip(0) =~= all);
    let mut i: usize = 0;
    while i < words.len()
        invariant
            i <= words.len(),
            goal == with_features(names, topology@, fs@, all.skip(i as int)),
        decreases words.len() - i,
    {
        assert(all.skip(i as int)[0] == words@[i as int]@);
        assert(all.skip(i as int).drop_first() =~= all.skip(i + 1));
        let key = match names.intern(words[i].as_str()) {
            Some(key) => key,
            None => {
                return Err(Error::CannotParse(words[i].clone()));
            },
        };
        let feature = topology.to_feature(key);
        if let Err(e) = fs.insert_feature(feature) {
            return Err(Error::Syntax(e));
        }
        i = i + 1;
    }
    assert(all.skip(i as int).len() == 0);
    Ok(fs)
}

/// Reads the lexical entries `entries` into `lexicon`. What was added
/// before a failure stays.
#[verifier::loop_isolation(false)]
pub fn parse_lexical_entries<I: Interner>(
    lexicon: &mut Lexicon,
    names: &I,
    entries: &Vec<(String, Vec<String>)>,
    topology: &FeatureTopology,
) -> (r: Result<(), Error>)
    ensures
        final(lexicon)@ == with_added(old(lexicon)@, lexical_section(names, topology@, entries@).0),
        failed(r, lexical_section(names, topology@, entries@).1),
{
    let ghost start = lexicon@;
    let ghost log = Seq::<Added>::empty();
    let ghost goal = lexical_section(names, topology@, entries@);
    assert(entries@.skip(0) =~= entries@);
    assert(log + goal.0 =~= goal.0);
    let mut i: usize = 0;
    while i < entries.len()
        invariant
            i <= entries.len(),
            lexicon@ == with_added(start, log),
            goal == and_then((log, None), lexical_section(names, topology@, entries@.skip(i as int))),
        decreases entries.len() - i,
    {
        assert(entries@.skip(i as int)[0] == entries@[i as int]);
        assert(entries@.skip(i as int).drop_first() =~= entries@.skip(i + 1));
        let ghost next = lexical_outcome(names, topology@, lexical_view(entries@[i as int]));
        proof {
            lemma_with_added(start, log, next.0);
            lemma_and_then(log, next, lexical_section(names, topology@, entries@.skip(i + 1)));
            assert(log + Seq::<Added>::empty() =~= log);
        }
        let lexi = match names.intern(entries[i].0.as_str()) {
            Some(lexi) => lexi,
            None => {
                return Err(Error::CannotParse(entries[i].0.clone()));
            },
        };
        let features = parse_feature_set(names, &entries[i].1, topology)?;
        let ghost one = (SyntaxNodeView::Lexi(lexi), InterpretationView::Val(features@));
        lexicon.insert_lexical(lexi, features);
        proof {
            lemma_with_one(with_added(start, log), one);
            log = log + next.0;
        }
        i = i + 1;
    }
    assert(entries@.skip(i as int).len() == 0);
    assert(log + Seq::<Added>::empty() =~= log);
    Ok(())
}

/// Reads the categories `entries`, with their values, into the topology
/// `ft`, up to the first word of which the interner makes no key.
#[verifier::loop_isolation(false)]
pub fn parse_feature_topology<I: Interner>(
    ft: &mut FeatureTopology,
    names: &I,
    entries: &Vec<(String, Vec<String>)>,
) -> (r: Result<(), Error>)
    ensures
        final(ft)@ == with_categories(names, old(ft)@, entries@).0,
        match with_categories(names, old(ft)@, entries@).1 {
            Some(w) => r is Err && r->Err_0@ == Failure::CannotParse(w),
            None => r is Ok,
        },
{
    let ghost goal = with_categories(names, ft@, entries@);
    assert(entries@.skip(0) =~= entries@);
    let mut i: usize = 0;
    while i < entries.len()
        invariant
            i <= entries.len(),
            goal == with_categories(names, ft@, entries@.skip(i as int)),
        decreases entries.len() - i,
    {
        assert(entries@.skip(i as int)[0] == entries@[i as int]);
        assert(entries@.skip(i as int).drop_first() =~= entries@.skip(i + 1));
        let category = match names.intern(entries[i].0.as_str()) {
            Some(category) => category,
            None => {
                return Err(Error::CannotParse(entries[i].0.clone()));
            },
        };
        let values = &entries[i].1;
        let ghost all = words_view(values@);
        let ghost inner = with_values(names, ft@, category, all);
        assert(all.skip(0) =~= all);
        let mut j: usize = 0;
        while j < values.len()
            invariant
                j <= values.len(),
                inner == with_values(names, ft@, category, all.skip(j as int)),
            decreases values.len() - j,
        {
            assert(all.skip(j as int)[0] == values@[j as int]@);
            assert(all.skip(j as int).drop_first() =~= all.skip(j + 1));
            let value = match names.intern(values[j].as_str()) {
                Some(value) => value,
                None => {
                    return Err(Error::CannotParse(values[j].clone()));
                },
            };
            ft.insert(category, value);
            j = j + 1;
        }
        assert(all.skip(j as int).len() == 0);
        i = i + 1;
    }
    assert(entries@.skip(i as int).len() == 0);
    Ok(())
}

/// Reads the source of a lexicon of interpretations.
pub struct LexiconParser;

impl LexiconParser {
    /// The lexicon that the source `source` makes: of its categories
    /// first, then of its functional entries, with at most `depth`
    /// categories in a row in an entry, then of its lexical entries.
    pub fn parse_lexicon<I: Interner>(names: &I, source: &Source, depth: usize) -> (r: Result<
        Lexicon,
        Error,
    >)
        ensures
            failed(r, source_outcome(names, *source, depth as nat).1),
            r is Ok ==> r->Ok_0@ == with_added(
                Map::empty(),
                source_outcome(names, *source, depth as nat).0,
            ),
    {
        let mut lexicon = Lexicon::new();
        let mut feature_topology = FeatureTopology::new();
        parse_feature_topology(&mut feature_topology, names, &source.features)?;
        parse_functional_entries(
            &mut lexicon,
            names,
            &source.functional,
            &feature_topology,
            depth,
        )?;
        parse_lexical_entries(&mut lexicon, names, &source.lexical, &feature_topology)?;
        proof {
            lemma_with_added(
                Map::empty(),
                functional_section(names, feature_topology@, source.functional@, depth as nat).0,
                lexical_section(names, feature_topology@, source.lexical@).0,
            );
        }
        Ok(lexicon)
    }
}

} // verus!
