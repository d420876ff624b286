use super::sentence::{with_token, with_tokens, Sentence};
use crate::text::Text;
use crate::tokenizer::{lemma_next_word, next_word, split_word};
use vstd::prelude::*;

verus! {

/// The words of `text`, one after the other: a punctuation character is a
/// word of its own, any other word ends at white space and at punctuation.
pub open spec fn words_of(text: Text) -> Seq<Text>
    decreases text.len(),
{
    match next_word(text) {
        None => Seq::empty(),
        Some(split) => {
            proof {
                lemma_next_word(text);
            }
            seq![split.word] + words_of(split.rest)
        },
    }
}

/// Reads sentences.
pub struct SentenceParser;

impl SentenceParser {
    /// The sentence that the text `input` is: its words are its tokens.
    pub fn parse_sentence(input: &str) -> (r: Result<Sentence, String>)
        ensures
            r is Ok,
            r->Ok_0@ == with_tokens(Seq::empty(), words_of(input@)),
    {
        let mut sentence = Sentence::new();
        let mut rest = input;
        loop
            invariant
                with_tokens(Seq::empty(), words_of(input@)) == with_tokens(sentence@, words_of(rest@)),
            decreases rest@.len(),
        {
            match split_word(rest) {
                Some((word, left)) => {
                    proof {
                        lemma_next_word(rest@);
                        let words = words_of(rest@);
                        assert(words[0] == word@);
                        assert(words.drop_first() =~= words_of(left@));
                    }
                    sentence.add_token(word);
                    rest = left;
                },
                None => {
                    return Ok(sentence);
                },
            }
        }
    }
}

} // verus!
