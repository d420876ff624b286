use vstd::prelude::*;
use vstd::string::StringExecFns;

verus! {

/// The content of a list of words.
pub open spec fn words_view(words: Seq<String>) -> Seq<Seq<char>> {
    words.map_values(|w: String| w@)
}

/// A lexicon node as it is written in a lexicon's source: with the words
/// of its feature sets, each the name of a category, of a value or of a
/// bare marker.
#[derive(Debug, PartialEq, Eq)]
pub enum Notation {
    /// A feature set.
    FeatureSet(Vec<String>),
    /// A function from `from` to the feature set `to`.
    Lambda { from: Box<Notation>, to: Vec<String>, project: bool },
    /// A moved feature set.
    Moved(Vec<String>),
}

/// The mathematical content of a [`Notation`].
pub enum NotationView {
    FeatureSet(Seq<Seq<char>>),
    Lambda { from: Box<NotationView>, to: Seq<Seq<char>>, project: bool },
    Moved(Seq<Seq<char>>),
}

impl Notation {
    /// The content of the notation.
    pub open spec fn content(&self) -> NotationView
        decreases self,
    {
        match self {
            Notation::FeatureSet(words) => NotationView::FeatureSet(words_view(words@)),
            Notation::Lambda { from, to, project } => NotationView::Lambda {
                from: Box::new((**from).content()),
                to: words_view(to@),
                project: *project,
            },
            Notation::Moved(words) => NotationView::Moved(words_view(words@)),
        }
    }
}

impl View for Notation {
    type V = NotationView;

    open spec fn view(&self) -> NotationView {
        self.content()
    }
}

/// The source of a lexicon, section by section: the categories with the
/// names of their values, the functional entries with the words of their
/// triggers, and the lexical entries with their tokens.
#[derive(Debug, PartialEq, Eq)]
pub struct LexiconSource {
    pub features: Vec<(String, Vec<String>)>,
    pub functional: Vec<(Vec<String>, Notation)>,
    pub lexical: Vec<(String, Notation)>,
}

/// Why the source of a lexicon could not be read.
#[derive(Debug, PartialEq, Eq)]
pub enum Error {
    /// The interner made no key of this word.
    CannotParse(String),
}

impl Error {
    /// The message of the error.
    pub fn to_string(&self) -> (s: String)
        ensures
            s@ == "FromStr: Cannot parse "@ + self->CannotParse_0@,
    {
        match self {
            Error::CannotParse(word) => {
                let mut s = "FromStr: Cannot parse ".to_string();
                s.append(word.as_str());
                s
            },
        }
    }
}

} // verus!
