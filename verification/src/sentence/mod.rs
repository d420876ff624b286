mod parser;
mod sentence;

pub use parser::{words_of, SentenceParser};
pub use sentence::{
    all_caps, is_alphabetic, is_uppercase, lowercase, lowered, with_token, with_tokens, Sentence,
};
