mod error;
mod feature;
mod feature_set;
mod syntax_value;

pub use error::Error;
pub use feature::Feature;
pub use feature_set::{
    features_text, gathered, holds, is_listing, lemma_pair_texts_fail, lemma_project_conflict,
    lemma_subset_reflexive, listing, merged, pair_text, pair_texts, projection,
};
pub use feature_set::{FeatureSet, FeatureSetIter, Features, Key};
pub use syntax_value::{SyntaxValue, SyntaxValueView};
