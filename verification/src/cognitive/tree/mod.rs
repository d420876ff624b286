mod display;
mod error;
mod graph;
mod model;
mod node;

pub use display::{
    arrow, count, indentation, label, lemma_debug_roots_fail, mark_if, star, tick, with_item,
    written,
};
pub use error::{Error, NodeID};
pub use graph::{dot_edge, dot_link, with_child};
pub use model::{
    lemma_add_left_changes_links_only, lemma_new_tree_wonders_about_target,
    lemma_prune_changes_links_only, lemma_prune_walk_changes_links_only,
    lemma_rehang_changes_links_only, lemma_relations_change_links_only,
    lemma_tree_wonders_about_token, lifted, same_but_links, same_nodes, TreeModel, TreeView,
    Worklist,
};
pub use node::{Node, NodeView};
