mod node;
mod trie_multimap;

pub use node::{edge_under, lemma_edge_under, Label, Node, NodeView};
pub use trie_multimap::{
    arena_of, arena_pairs, descended, distinct_pairs, edge_ok, edge_to, frontier_ok, in_frontier,
    inserted, is_subsequence, labels_differ, lemma_arena_distinct, lemma_child_path,
    lemma_lines_text_fail, lemma_one_child_per_label, lemma_path_determines_record,
    lemma_root_has_empty_path, lemma_step_distinct, lemma_subsequence_grows,
    lemma_walk_distinct, lemma_walk_step, line_text, lines_text, listed, lists_all, pairs_view,
    path_among, paths_differ, reached, record_pairs, root_alone, step_finds, step_frontier,
    step_pairs, step_reaches, stored, tree_shaped, values_differ, walk_frontier, walk_pairs,
    with_child, with_value, within, write_lines, Pairs, TrieMultiMap,
};
