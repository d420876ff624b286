/// Reading a source into a lexicon of interpretations: the name of a
/// category in an entry stands for each value of the category in turn.
pub mod expansion;
mod feature_topology;
mod load;
mod notation;
mod reading;

pub use feature_topology::{FeatureTopology, TopologyView};
pub use load::{
    category_view, entries_under, functional_log, functional_log_from, functional_section_log,
    functional_view, lemma_add_to_set, lemma_push_to_set, lemma_then, lexical_log,
    lexical_section_log, lexical_view, logged, parse_feature_entries, parse_functional_entries,
    parse_lexical_entries, parse_sections, source_log, then, with_categories, with_values, Entry,
    Log,
};
pub use notation::{words_view, Error, LexiconSource, Notation, NotationView};
pub use reading::{
    extend_readings, feature_readings, feature_set_readings, labels_view, lambda_readings,
    lambdas_from, node_readings, nodes_view, parse_feature, parse_feature_set, parse_lambda,
    parse_moved, parse_syntax_node, parse_word, read_as, sets_view, with_feature, word_key,
    written_features, Reading, Readings, Substitution, SubstitutionTable,
};
