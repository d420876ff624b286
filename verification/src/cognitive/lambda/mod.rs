mod error;
mod model;
mod node;
mod valid_entry;

pub use error::Error;
pub use model::{
    applicable, decide_step, demands, lemma_complete_model_is_closed,
    lemma_entry_needs_application, lemma_stack_texts_fail,
    lemma_sufficient_interpretation_resolves, lemma_token_awaits_interpretation, lifted,
    possibly_project_spec, push_lambda_features_spec, push_lexicon_lambda_spec, receive_step,
    stack_text, stack_texts, with_projection, wonders, LambdaModel, Stack,
};
pub use node::{Node, NodeView};
pub use valid_entry::{ValidEntry, ValidEntryView};
