use super::tokenize::{candidate, Tokenizer};
use crate::interner::Interner;
use crate::syntax::Key;
use crate::text::Text;
use vstd::prelude::*;
use vstd::string::StrSliceExecFns;

verus! {

/// Whether `c` is white space, as Unicode defines it.
pub uninterp spec fn is_whitespace(c: char) -> bool;

/// `char::is_whitespace` of the standard library: whether the character
/// has the Unicode property `White_Space`. That is a property of the
/// character alone; the contract gives it a name and claims no more.
#[verifier::external_body]
fn char_is_whitespace(c: char) -> (r: bool)
    ensures
        r == is_whitespace(c),
{
    c.is_whitespace()
}

/// Whether `c` is an ASCII punctuation character: one of
/// `! " # $ % & ' ( ) * + , - . /`, `: ; < = > ? @`, `[ \ ] ^ _` and the
/// backquote, or `{ | } ~`.
pub open spec fn is_punctuation(c: char) -> bool {
    let n = c as u32;
    (0x21 <= n <= 0x2F) || (0x3A <= n <= 0x40) || (0x5B <= n <= 0x60) || (0x7B <= n <= 0x7E)
}

/// Whether `c` is an ASCII punctuation character.
pub fn is_ascii_punctuation(c: char) -> (r: bool)
    ensures
        r == is_punctuation(c),
{
    let n = c as u32;
    (0x21 <= n && n <= 0x2F) || (0x3A <= n && n <= 0x40) || (0x5B <= n && n <= 0x60) || (0x7B <= n
        && n <= 0x7E)
}

/// Whether a word ends before `c`: at white space and at punctuation.
pub open spec fn ends_word(c: char) -> bool {
    is_whitespace(c) || is_punctuation(c)
}

/// The first position from `from` on that holds no white space, or the
/// length of the text.
pub open spec fn skip_blanks(text: Seq<char>, from: int) -> int
    decreases text.len() - from,
{
    if 0 <= from < text.len() && is_whitespace(text[from]) {
        skip_blanks(text, from + 1)
    } else {
        from
    }
}

/// The first position from `from` on where a word ends, or the length of
/// the text.
pub open spec fn word_end(text: Seq<char>, from: int) -> int
    decreases text.len() - from,
{
    if 0 <= from < text.len() && !ends_word(text[from]) {
        word_end(text, from + 1)
    } else {
        from
    }
}

/// A text split into its next word and what the word leaves over.
pub struct Split {
    pub word: Seq<char>,
    pub rest: Seq<char>,
}

/// The next word of `text` and what it leaves over. Leading white space is
/// skipped. A punctuation character is a word of its own; any other word
/// goes on up to the next white space or punctuation. A text of white
/// space has no next word.
pub open spec fn next_word(text: Seq<char>) -> Option<Split> {
    let start = skip_blanks(text, 0);
    if start >= text.len() {
        None
    } else {
        let end = if is_punctuation(text[start]) {
            start + 1
        } else {
            word_end(text, start)
        };
        Some(Split { word: text.subrange(start, end), rest: text.subrange(end, text.len() as int) })
    }
}

/// The skipped positions hold white space; the position reached does not.
pub proof fn lemma_skip_blanks(text: Seq<char>, from: int)
    requires
        0 <= from <= text.len(),
    ensures
        from <= skip_blanks(text, from) <= text.len(),
        forall|j: int| from <= j < skip_blanks(text, from) ==> is_whitespace(#[trigger] text[j]),
        skip_blanks(text, from) < text.len() ==> !is_whitespace(text[skip_blanks(text, from)]),
    decreases text.len() - from,
{
    if from < text.len() && is_whitespace(text[from]) {
        lemma_skip_blanks(text, from + 1);
    }
}

/// No word ends within the positions passed over; one ends at the position
/// reached, unless the text ends there.
pub proof fn lemma_word_end(text: Seq<char>, from: int)
    requires
        0 <= from <= text.len(),
    ensures
        from <= word_end(text, from) <= text.len(),
        forall|j: int| from <= j < word_end(text, from) ==> !ends_word(#[trigger] text[j]),
        word_end(text, from) < text.len() ==> ends_word(text[word_end(text, from)]),
    decreases text.len() - from,
{
    if from < text.len() && !ends_word(text[from]) {
        lemma_word_end(text, from + 1);
    }
}

/// The next word is not empty and holds no white space, and what it leaves
/// over is shorter than the text.
pub proof fn lemma_next_word(text: Seq<char>)
    requires
        next_word(text) is Some,
    ensures
        next_word(text)->0.word.len() > 0,
        next_word(text)->0.rest.len() < text.len(),
        forall|j: int|
            0 <= j < next_word(text)->0.word.len() ==> !is_whitespace(
                #[trigger] next_word(text)->0.word[j],
            ),
{
    lemma_skip_blanks(text, 0);
    let start = skip_blanks(text, 0);
    lemma_word_end(text, start);
}

/// Whether `r` is the split `expected`.
pub open spec fn split_as(r: Option<(&str, &str)>, expected: Option<Split>) -> bool {
    match (expected, r) {
        (Some(split), Some((word, rest))) => word@ == split.word && rest@ == split.rest,
        (None, None) => true,
        _ => false,
    }
}

/// The next word of `input` and what it leaves over.
pub fn split_word<'a>(input: &'a str) -> (r: Option<(&'a str, &'a str)>)
    ensures
        split_as(r, next_word(input@)),
{
    let n = input.unicode_len();
    let mut start: usize = 0;
    while start < n && char_is_whitespace(input.get_char(start))
        invariant
            start <= n,
            n == input@.len(),
            skip_blanks(input@, 0) == skip_blanks(input@, start as int),
        decreases n - start,
    {
        start = start + 1;
    }
    if start >= n {
        return None;
    }
    let mut end: usize = start + 1;
    if !is_ascii_punctuation(input.get_char(start)) {
        assert(!ends_word(input@[start as int]));
        while end < n && !char_is_whitespace(input.get_char(end)) && !is_ascii_punctuation(
            input.get_char(end),
        )
            invariant
                start < end <= n,
                n == input@.len(),
                word_end(input@, start as int) == word_end(input@, end as int),
            decreases n - end,
        {
            end = end + 1;
        }
    }
    Some((input.substring_char(start, end), input.substring_char(end, n)))
}

/// A tokenizer that splits at white space and at ASCII punctuation, and
/// has an interner make the key of each word.
#[derive(Debug, Default)]
pub struct SimpleTokenizer<I: Interner> {
    pub interner: I,
}

impl<I: Interner> SimpleTokenizer<I> {
    /// A tokenizer that makes its keys with `interner`.
    pub fn new(interner: I) -> (r: Self)
        ensures
            r.interner == interner,
    {
        SimpleTokenizer { interner }
    }

    /// The next word of `input` and what it leaves over.
    pub fn split<'a>(input: &'a str) -> (r: Option<(&'a str, &'a str)>)
        ensures
            split_as(r, next_word(input@)),
    {
        split_word(input)
    }
}

impl<I: Interner> Tokenizer for SimpleTokenizer<I> {
    /// The one candidate is the next word, if the interner makes it a key.
    open spec fn offers(&self, text: Text, token: Key, rest: Text) -> bool {
        next_word(text) matches Some(split) && split.rest == rest && self.interner.key_of(split.word)
            == Some(token)
    }

    fn tokenize<'a>(&self, input: &'a str) -> (r: Vec<(Key, &'a str)>) {
        let mut r: Vec<(Key, &'a str)> = Vec::new();
        match Self::split(input) {
            Some((token_str, remainder)) => match self.interner.intern(token_str) {
                Some(k) => {
                    r.push((k, remainder));
                    assert(r@[0] == (k, remainder));
                },
                None => {},
            },
            None => {},
        }
        r
    }
}

} // verus!
