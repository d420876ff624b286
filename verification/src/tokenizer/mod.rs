mod simple;
mod tokenize;

pub use simple::{
    ends_word, is_ascii_punctuation, is_punctuation, is_whitespace, lemma_next_word,
    lemma_skip_blanks, lemma_word_end, next_word, skip_blanks, split_as, split_word, word_end,
    SimpleTokenizer, Split,
};
pub use tokenize::{candidate, Tokenizer};
