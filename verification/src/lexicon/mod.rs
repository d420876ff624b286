mod entry;
/// The categories and their values, as the lexicon of interpretations is
/// read with them.
pub mod feature_topology;
mod interpretation;
/// The lexicon that holds, for syntax nodes, their interpretations.
pub mod lexicon;
mod listing;
mod node;
/// From the source of a lexicon, section by section, to its entries.
pub mod parser;
mod query;
mod simple;

pub use entry::{option_view, LexiconEntry, LexiconEntryView};
pub use interpretation::{Interpretation, InterpretationView};
pub use listing::{
    ascending, features_of, lemma_ascending_lists, lemma_ascending_subsequence, lemma_gathered_lists,
    lemma_listing_determines_features, lemma_listing_is_unique, lemma_subsequence_elements,
    lemma_subsequence_length, lemma_subset_is_subsequence,
};
pub use node::{LexiconNode, LexiconNodeView};
pub use query::{
    answers, distinct_entries, fires, lemma_subset_query_complete, lemma_subset_query_sound, offered,
    residue, Lexicon,
};
pub use simple::{
    distinct_list, distinct_nodes, entries_text, entry_line, entry_lines, entry_of, holds_entry, holds_node,
    lemma_entry_lines_fail, write_entries, SimpleLexicon,
};
