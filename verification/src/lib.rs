//! Enumerates the derivations of a sentence into a target category under a
//! feature-based lexicon, as an incremental, left-to-right process.
//!
//! A text is taken token by token. A cognitive model holds the derivation
//! in progress; it says when it takes a token and what it wants
//! interpreted, and a lexicon answers with the entries that may interpret
//! it. The search tries every token and every entry, each on a model of its
//! own, and returns every sequence of actions that uses the text up and
//! completes the model.

/// The two cognitive models: a stack of expectations, and a tree.
pub mod cognitive;
/// What a language brings to the search.
pub mod dialect;
/// Left and right.
pub mod direction;
/// The link between keys and their names.
pub mod interner;
/// The search for derivations, and their replay; and the interpreter that
/// builds syntax trees round by round.
pub mod interpreter;
/// Lexicon entries, the lexicon that finds them by token and by features,
/// the lexicon of interpretations for syntax nodes, and the reading of a
/// lexicon's source.
pub mod lexicon;
/// Sentences as lists of tokens.
pub mod sentence;
/// Feature sets and their algebra.
pub mod syntax;
/// What the nodes of a syntax tree hold.
pub mod syntax_node;
/// Texts: their order, and how numbers and lists are written.
pub mod text;
/// Tokenizers.
pub mod tokenizer;
/// The trie that finds the stored subsets of a query.
pub mod trie;
