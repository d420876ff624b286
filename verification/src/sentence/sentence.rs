use super::parser::SentenceParser;
use crate::text::{texts, Text};
use vstd::prelude::*;
use vstd::string::{StrSliceExecFns, StringExecFns};

verus! {

/// Whether `c` is a letter, as Unicode defines it.
pub uninterp spec fn is_alphabetic(c: char) -> bool;

/// Whether `c` is an upper case letter, as Unicode defines it.
pub uninterp spec fn is_uppercase(c: char) -> bool;

/// The character `c` in lower case, which may be more than one character.
pub uninterp spec fn lowercase(c: char) -> Seq<char>;

/// `char::is_alphabetic` of the standard library: whether the character
/// has the Unicode property `Alphabetic`. That is a property of the
/// character alone; the contract gives it a name and claims no more.
#[verifier::external_body]
fn char_is_alphabetic(c: char) -> (r: bool)
    ensures
        r == is_alphabetic(c),
{
    c.is_alphabetic()
}

/// `char::is_uppercase` of the standard library: whether the character
/// has the Unicode property `Uppercase`. That is a property of the
/// character alone; the contract gives it a name and claims no more.
#[verifier::external_body]
fn char_is_uppercase(c: char) -> (r: bool)
    ensures
        r == is_uppercase(c),
{
    c.is_uppercase()
}

/// `char::to_lowercase` of the standard library: the lower case mapping of
/// the character, as a string. The mapping is that of the Unicode
/// character database and depends on the character alone; the contract
/// gives it a name and claims no more.
#[verifier::external_body]
fn char_to_lowercase(c: char) -> (r: String)
    ensures
        r@ == lowercase(c),
{
    c.to_lowercase().to_string()
}

/// Whether every letter of `s` is an upper case letter.
pub open spec fn all_caps(s: Text) -> bool {
    forall|i: int| 0 <= i < s.len() ==> !is_alphabetic(#[trigger] s[i]) || is_uppercase(s[i])
}

/// The token `token` with its first character in lower case.
pub open spec fn lowered(token: Text) -> Text {
    if token.len() == 0 {
        token
    } else {
        lowercase(token[0]) + token.drop_first()
    }
}

/// The tokens `tokens` with `token` added. The first token of a sentence
/// begins in lower case; but a token all in upper case is no first token,
/// and is left out.
pub open spec fn with_token(tokens: Seq<Text>, token: Text) -> Seq<Text> {
    if tokens.len() > 0 {
        tokens.push(token)
    } else if all_caps(token) {
        tokens
    } else {
        tokens.push(lowered(token))
    }
}

/// The tokens `tokens` with the tokens `more` added, one after the other.
pub open spec fn with_tokens(tokens: Seq<Text>, more: Seq<Text>) -> Seq<Text>
    decreases more.len(),
{
    if more.len() == 0 {
        tokens
    } else {
        with_tokens(with_token(tokens, more[0]), more.drop_first())
    }
}

/// A sentence: its tokens in order.
#[derive(Debug)]
pub struct Sentence(Vec<String>);

impl Clone for Sentence {
    fn clone(&self) -> (r: Self)
        ensures
            r@ == self@,
    {
        let mut tokens: Vec<String> = Vec::new();
        let mut i: usize = 0;
        while i < self.0.len()
            invariant
                i <= self.0.len(),
                tokens@.len() == i,
                forall|j: int| 0 <= j < i ==> (#[trigger] tokens@[j])@ == self.0@[j]@,
            decreases self.0.len() - i,
        {
            tokens.push(self.0[i].clone());
            i = i + 1;
        }
        let r = Sentence(tokens);
        assert(r@ =~= self@);
        r
    }
}

impl View for Sentence {
    type V = Seq<Text>;

    closed spec fn view(&self) -> Seq<Text> {
        texts(self.0@)
    }
}

impl Sentence {
    /// The sentence without tokens.
    pub fn new() -> (r: Sentence)
        ensures
            r@ == Seq::<Text>::empty(),
    {
        let r = Sentence(Vec::new());
        assert(r@ =~= Seq::<Text>::empty());
        r
    }

    /// The sentence that the text `s` is.
    pub fn from_str(s: &str) -> (r: Result<Sentence, String>)
        ensures
            r is Ok,
            r->Ok_0@ == with_tokens(Seq::empty(), super::parser::words_of(s@)),
    {
        SentenceParser::parse_sentence(s)
    }

    /// The number of tokens.
    pub fn size(&self) -> (r: usize)
        ensures
            r == self@.len(),
    {
        self.0.len()
    }

    /// The tokens of the sentence.
    pub fn as_str(&self) -> (r: Vec<&str>)
        ensures
            r@.len() == self@.len(),
            forall|i: int| 0 <= i < r@.len() ==> (#[trigger] r@[i])@ == self@[i],
    {
        let mut r: Vec<&str> = Vec::new();
        let mut i: usize = 0;
        while i < self.0.len()
            invariant
                i <= self.0.len(),
                r@.len() == i,
                forall|j: int| 0 <= j < i ==> (#[trigger] r@[j])@ == self.0@[j]@,
            decreases self.0.len() - i,
        {
            r.push(self.0[i].as_str());
            i = i + 1;
        }
        r
    }

    /// Whether every letter of `s` is an upper case letter.
    fn is_all_caps(s: &str) -> (r: bool)
        ensures
            r == all_caps(s@),
    {
        let n = s.unicode_len();
        let mut i: usize = 0;
        while i < n
            invariant
                i <= n,
                n == s@.len(),
                forall|j: int| 0 <= j < i ==> !is_alphabetic(#[trigger] s@[j]) || is_uppercase(s@[j]),
            decreases n - i,
        {
            let c = s.get_char(i);
            if char_is_alphabetic(c) && !char_is_uppercase(c) {
                return false;
            }
            i = i + 1;
        }
        true
    }

    /// Adds `token` as the first token of the sentence.
    fn add_first_token(&mut self, token: &str)
        requires
            old(self)@.len() == 0,
        ensures
            final(self)@ == with_token(old(self)@, token@),
    {
        if !Self::is_all_caps(token) {
            let n = token.unicode_len();
            let lowered = if n == 0 {
                String::new()
            } else {
                let mut lowered = char_to_lowercase(token.get_char(0));
                lowered.append(token.substring_char(1, n));
                assert(token@.subrange(1, n as int) =~= token@.drop_first());
                lowered
            };
            let ghost before = self@;
            let ghost text = lowered@;
            self.0.push(lowered);
            assert(self@ =~= before.push(text));
        }
    }

    /// Adds `token` to the sentence.
    pub fn add_token(&mut self, token: &str)
        ensures
            final(self)@ == with_token(old(self)@, token@),
    {
        if self.size() == 0 {
            self.add_first_token(token);
        } else {
            let ghost before = self@;
            self.0.push(String::from_str(token));
            assert(self@ =~= before.push(token@));
        }
    }
}

} // verus!
