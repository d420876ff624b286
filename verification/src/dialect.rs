use crate::interner::Interner;
use crate::lexicon::Lexicon;
use crate::text::Text;
use crate::tokenizer::Tokenizer;
use vstd::prelude::*;

verus! {

/// A language: a name, a lexicon and a tokenizer, with the interner that
/// made the keys of both.
pub trait Dialect {
    type Lexicon: Lexicon;

    type Tokenizer: Tokenizer;

    type Interner: Interner;

    /// The lexicon of the dialect.
    spec fn lexicon_spec(&self) -> &Self::Lexicon;

    /// The tokenizer of the dialect.
    spec fn tokenizer_spec(&self) -> &Self::Tokenizer;

    /// The interner of the dialect.
    spec fn interner_spec(&self) -> &Self::Interner;

    /// The name of the dialect.
    spec fn name_spec(&self) -> Text;

    fn name(&self) -> (r: &str)
        ensures
            r@ == self.name_spec(),
    ;

    fn interner(&self) -> (r: &Self::Interner)
        ensures
            r == self.interner_spec(),
    ;

    fn lexicon(&self) -> (r: &Self::Lexicon)
        ensures
            r == self.lexicon_spec(),
    ;

    fn tokenizer(&self) -> (r: &Self::Tokenizer)
        ensures
            r == self.tokenizer_spec(),
    ;
}

} // verus!
