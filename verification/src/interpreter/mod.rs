mod action;
mod error;
mod follow;
mod interpret;
mod interpreter;
mod lexical_only_tree;
mod syntax_tree;
mod todo_task;
mod tree_node;

pub use action::{copy_actions, derivation, same_derivation, Action, ActionView};
pub use error::Error;
pub use follow::{act, follow, follow_key, followed, replay, target_features};
pub use interpret::{
    derives, distinct_derivations, found, interpret, interprets, lemma_branches, lemma_interpretation_replays,
    lemma_longer_prefix, lemma_round_trip, reaches, step, via_answer, via_candidate, via_entry,
    via_token, Actions, Contents,
};
pub use interpreter::{
    applications, applied, kept, ran, round_spec, run_spec, run_state_spec, trees_view,
    Interpreter, InterpreterResult, InterpreterState,
};
pub use lexical_only_tree::{
    lemma_lots_of_fail, lot_of, lot_of_child, lot_of_tree, lot_text, lots_of, LOTError, LOT,
};
pub use syntax_tree::{
    key_names, keys_of, lemma_key_names_fail, lemma_keys_of_fail, task_texts, SyntaxTree,
    SyntaxTreeError, SyntaxTreeView,
};
pub use todo_task::{TodoTask, TodoTaskView};
pub use tree_node::{TreeNode, TreeNodeView};
