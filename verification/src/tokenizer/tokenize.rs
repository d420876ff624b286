use crate::syntax::Key;
use crate::text::Text;
use vstd::prelude::*;

verus! {

/// Whether the list `r` holds the token `token` with the remainder `rest`.
pub open spec fn candidate(r: Seq<(Key, &str)>, token: Key, rest: Seq<char>) -> bool {
    exists|i: int| 0 <= i < r.len() && (#[trigger] r[i]).0 == token && r[i].1@ == rest
}

/// Splits a text into its next token and what is left. A text may have no
/// next token, or several candidates.
pub trait Tokenizer {
    /// Whether `token` is a candidate for the next token of `text`, with
    /// `rest` left over.
    spec fn offers(&self, text: Text, token: Key, rest: Text) -> bool;

    /// The candidates for the next token of `input`, each with what it
    /// leaves over.
    fn tokenize<'a>(&self, input: &'a str) -> (r: Vec<(Key, &'a str)>)
        ensures
            forall|token: Key, rest: Seq<char>| #[trigger]
                candidate(r@, token, rest) <==> self.offers(input@, token, rest),
    ;
}

} // verus!
