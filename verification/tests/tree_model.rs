use langbda::cognitive::tree::{Error, Node, NodeID};
use langbda::cognitive::{CognitiveModel, TreeModel};
use langbda::lexicon::{LexiconEntry, LexiconNode};
use langbda::syntax::{FeatureSet, Key, SyntaxValue};

fn bare(keys: &[Key]) -> FeatureSet {
    let mut fs = FeatureSet::new();
    for k in keys {
        fs.insert(*k, None);
    }
    fs
}

fn features(keys: &[Key]) -> SyntaxValue {
    SyntaxValue::Features(bare(keys))
}

fn entry(keys: &[Key]) -> LexiconNode {
    LexiconNode::Value { value: features(keys) }
}

fn failed(e: Error) -> Result<(), langbda::cognitive::Error> {
    Err(langbda::cognitive::Error::TreeModel(e))
}

/// The tree below `id`, written as `id(left,right)`, `-` for no child.
fn shape(tree: &TreeModel, id: NodeID) -> String {
    let left = tree.get_left(id).unwrap();
    let right = tree.get_right(id).unwrap();
    if left.is_none() && right.is_none() {
        return format!("{}", id);
    }
    let side = |child: Option<NodeID>| match child {
        Some(c) => shape(tree, c),
        None => "-".to_string(),
    };
    format!("{}({},{})", id, side(left), side(right))
}

const S: Key = 1;
const V: Key = 2;
const N: Key = 3;
const GO: Key = 10;

#[test]
fn a_new_tree_is_its_root() {
    let tree = TreeModel::init(bare(&[S]));
    assert_eq!(tree.size(), 1);
    assert!(!tree.is_empty());
    assert_eq!(tree.get_root(), 0);
    assert_eq!(tree.get_lower_cursor(), 0);
    assert_eq!(tree.get_upper_cursor(), 0);
    assert_eq!(tree.get_value(0), Ok(&features(&[S])));
    assert_eq!(tree.wonder(), Some(&features(&[S])));
    assert!(!tree.understood());
    assert!(tree.demand());
    assert!(TreeModel::new().is_empty());
    assert_eq!(TreeModel::new().wonder(), None);
    assert!(!TreeModel::new().understood());
    assert_eq!(tree.get_node(0), Ok(&Node::new(0, features(&[S]))));
}

#[test]
fn a_token_hangs_on_the_left_of_the_upper_cursor() {
    let mut tree = TreeModel::init(bare(&[S]));
    assert_eq!(tree.receive(GO), Ok(()));
    assert_eq!(shape(&tree, 0), "0(1,-)");
    assert_eq!(tree.get_lower_cursor(), 1);
    assert_eq!(tree.get_upper_cursor(), 0);
    assert_eq!(tree.wonder(), Some(&SyntaxValue::Item(GO)));
    assert_eq!(tree.get_parent(1), Ok(0));
    assert_eq!(tree.get_is_left(1), Ok(true));
    // a second token takes the place of the first, which is put aside
    assert_eq!(tree.receive(GO + 1), Ok(()));
    assert_eq!(shape(&tree, 0), "0(2,-)");
    assert_eq!(tree.get_unattached(), &vec![1]);
    assert_eq!(tree.get_parent(1), Err(Error::NodeHasNoParent(1)));
    assert_eq!(tree.get_lower_cursor(), 2);
}

#[test]
fn an_interpretation_becomes_the_parent_of_the_frontier_node() {
    let mut tree = TreeModel::init(bare(&[S]));
    tree.receive(GO).unwrap();
    assert_eq!(tree.decide(LexiconEntry::Lexical(entry(&[V]))), Ok(()));
    assert_eq!(shape(&tree, 0), "0(2(1,-),-)");
    assert_eq!(tree.if_done(1), Ok(true));
    assert_eq!(tree.if_done(2), Ok(false));
    assert_eq!(tree.get_lower_cursor(), 2);
    assert!(!tree.understood());
    assert_eq!(tree.wonder(), Some(&features(&[V])));
    // the rule from V to S saturates the root
    assert_eq!(tree.decide(LexiconEntry::Functional { to: entry(&[S]), project: None }), Ok(()));
    assert_eq!(shape(&tree, 0), "0(3(2(1,-),-),-)");
    assert_eq!(tree.if_done(3), Ok(true));
    assert_eq!(tree.if_done(0), Ok(true));
    assert_eq!(tree.get_lower_cursor(), 0);
    assert!(tree.understood());
}

#[test]
fn saturation_merges_the_other_features_of_the_child() {
    let mut tree = TreeModel::init(bare(&[S]));
    tree.receive(GO).unwrap();
    let mut more = bare(&[S]);
    more.insert(20, Some(21));
    let value = LexiconNode::Value { value: SyntaxValue::Features(more.clone()) };
    assert_eq!(tree.decide(LexiconEntry::Lexical(value)), Ok(()));
    assert!(tree.understood());
    assert_eq!(tree.get_features(0), Ok(&more));
    assert_eq!(tree.get_features(2), Ok(&more));
}

#[test]
fn a_function_is_built_with_its_argument_on_the_other_side() {
    let mut tree = TreeModel::init(bare(&[S]));
    tree.receive(GO).unwrap();
    let function = LexiconNode::Lambda { from: Box::new(entry(&[N])), to: bare(&[S]), project: true };
    assert_eq!(tree.decide(LexiconEntry::Lexical(function)), Ok(()));
    // 2 is the result, 3 the argument that is expected on its right
    assert_eq!(shape(&tree, 0), "0(2(1,3),-)");
    assert_eq!(tree.get_value(2), Ok(&features(&[S])));
    assert_eq!(tree.get_value(3), Ok(&features(&[N])));
    assert_eq!(tree.get_node(3).unwrap().get_project(), Some(&bare(&[N])));
    assert_eq!(tree.get_is_left(3), Ok(false));
    assert_eq!(tree.get_lower_cursor(), 3);
    assert_eq!(tree.get_upper_cursor(), 3);
    assert!(!tree.understood());
    // the argument arrives, with a feature more than asked for
    tree.receive(GO + 1).unwrap();
    assert_eq!(shape(&tree, 0), "0(2(1,3(4,-)),-)");
    let mut noun = bare(&[N]);
    noun.insert(20, Some(21));
    let value = LexiconNode::Value { value: SyntaxValue::Features(noun.clone()) };
    assert_eq!(tree.decide(LexiconEntry::Lexical(value)), Ok(()));
    assert_eq!(shape(&tree, 0), "0(2(1,3(5(4,-),-)),-)");
    assert!(tree.understood());
    // saturation gave the argument the feature, the pending projection
    // handed it on to the result, saturation again to the root
    let mut handed_on = bare(&[S]);
    handed_on.insert(20, Some(21));
    assert_eq!(tree.get_features(3), Ok(&noun));
    assert_eq!(tree.get_features(2), Ok(&handed_on));
    assert_eq!(tree.get_features(0), Ok(&handed_on));
    assert_eq!(tree.get_node(3).unwrap().get_project(), None);
}

#[test]
fn a_moved_constituent_records_where_it_came_from() {
    let mut tree = TreeModel::init(bare(&[S]));
    tree.receive(GO).unwrap();
    let moved = LexiconNode::Moved { from: bare(&[V]) };
    assert_eq!(tree.decide(LexiconEntry::Lexical(moved)), Ok(()));
    assert_eq!(tree.get_moved(2), Ok(Some(1)));
    assert_eq!(tree.get_moved(1), Ok(None));
    assert_eq!(tree.get_value(2), Ok(&features(&[V])));
}

#[test]
fn the_root_takes_no_parent() {
    let mut tree = TreeModel::init(bare(&[S]));
    assert_eq!(
        tree.decide(LexiconEntry::Lexical(entry(&[S]))),
        failed(Error::NodeHasNoParent(0))
    );
    assert_eq!(tree.insert_parent(entry(&[S]), None), Err(Error::NodeHasNoParent(0)));
    let mut empty = TreeModel::new();
    assert_eq!(empty.insert_parent(entry(&[S]), None), Err(Error::NodeNotFound(0)));
    // a token in an empty tree becomes its own left child
    assert_eq!(empty.receive(GO), Ok(()));
    assert_eq!(empty.get_left(0), Ok(Some(0)));
    assert_eq!(empty.get_parent(0), Ok(0));
}

#[test]
fn a_conflict_in_the_merge_fails_the_step_of_the_tree() {
    let mut tree = TreeModel::init(bare(&[S]));
    tree.receive(GO).unwrap();
    tree.decide(LexiconEntry::Lexical(entry(&[V]))).unwrap();
    // the features of the frontier node, V, are merged onto the new parent
    assert_eq!(
        tree.decide(LexiconEntry::Functional { to: entry(&[V]), project: Some(bare(&[])) }),
        failed(Error::Syntax(langbda::syntax::Error::CategoryAlreadyHasValue))
    );
    let mut tree = TreeModel::init(bare(&[S]));
    tree.receive(GO).unwrap();
    tree.decide(LexiconEntry::Lexical(entry(&[V]))).unwrap();
    assert_eq!(
        tree.decide(LexiconEntry::Functional { to: entry(&[N]), project: Some(bare(&[])) }),
        Ok(())
    );
    assert_eq!(tree.get_features(3), Ok(&bare(&[N, V])));
}

#[test]
fn a_token_has_no_features_to_merge() {
    let mut tree = TreeModel::init(bare(&[S]));
    tree.receive(GO).unwrap();
    assert_eq!(
        tree.decide(LexiconEntry::Functional { to: entry(&[N]), project: Some(bare(&[])) }),
        failed(Error::NodeIsNotFeatures(1))
    );
    assert_eq!(tree.get_features(1), Err(Error::NodeIsNotFeatures(1)));
    assert_eq!(tree.get_features_mut(1).err(), Some(Error::NodeIsNotFeatures(1)));
    assert_eq!(tree.get_features(9), Err(Error::NodeNotFound(9)));
    assert_eq!(tree.project(0, &bare(&[])), Err(Error::NodeHasNoParent(0)));
}

#[test]
fn links_are_set_and_deleted_on_both_sides() {
    let mut tree = TreeModel::new();
    let a = tree.new_node(features(&[S]));
    let b = tree.new_node(features(&[V]));
    let c = tree.new_node(features(&[N]));
    assert_eq!((a, b, c), (0, 1, 2));
    assert_eq!(tree.set_relation_left(a, b), Ok(()));
    assert_eq!(tree.set_relation(a, c, false), Ok(()));
    assert_eq!(shape(&tree, 0), "0(1,2)");
    assert_eq!(tree.get_node(a).unwrap().number_of_children(), 2);
    assert_eq!(tree.get_parent(c), Ok(a));
    assert_eq!(tree.get_is_left(c), Ok(false));
    assert_eq!(tree.delete_relation(a, b), Ok(()));
    assert_eq!(shape(&tree, 0), "0(-,2)");
    assert_eq!(tree.get_parent(b), Err(Error::NodeHasNoParent(b)));
    assert_eq!(tree.delete_relation(a, b), Err(Error::NodeHasNoChildWithID(a, b)));
    assert_eq!(tree.delete_relation(7, b), Err(Error::NodeNotFound(7)));
    assert_eq!(tree.set_relation_right(a, 7), Err(Error::NodeNotFound(7)));
    assert_eq!(tree.get_right(a), Ok(Some(7)));
    assert_eq!(tree.delete_relation(a, 7), Err(Error::NodeNotFound(7)));
    assert_eq!(tree.get_right(a), Ok(None));
    // a child that another node claims
    assert_eq!(tree.set_relation_left(a, b), Ok(()));
    assert_eq!(tree.set_relation_left(c, b), Ok(()));
    assert_eq!(tree.delete_relation(a, b), Err(Error::NodeHasNoParentWithID(b, a)));
}

#[test]
fn the_fields_of_a_node_can_be_set() {
    let mut tree = TreeModel::init(bare(&[S]));
    assert_eq!(tree.set_done(0), Ok(()));
    assert_eq!(tree.if_done(0), Ok(true));
    assert_eq!(tree.set_done(3), Err(Error::NodeNotFound(3)));
    assert_eq!(tree.if_done(3), Err(Error::NodeNotFound(3)));
    assert_eq!(tree.set_project(0, Some(bare(&[V]))), Ok(()));
    assert_eq!(tree.take_project(0), Ok(Some(bare(&[V]))));
    assert_eq!(tree.take_project(0), Ok(None));
    assert_eq!(tree.take_project(3), Err(Error::NodeNotFound(3)));
    assert_eq!(tree.set_moved(0, 5), Ok(()));
    assert_eq!(tree.get_moved(0), Ok(Some(5)));
    tree.get_features_mut(0).unwrap().insert(N, None);
    assert_eq!(tree.get_features(0), Ok(&bare(&[S, N])));
    let node = tree.get_node_mut(0).unwrap();
    node.set_as_left();
    node.set_parent(Some(4));
    node.set_left(Some(1));
    node.set_right(Some(2));
    *node.get_value_mut() = SyntaxValue::Item(GO);
    assert_eq!(node.get_id(), 0);
    assert!(node.get_is_left());
    assert_eq!(node.get_parent(), Some(4));
    assert_eq!((node.get_left(), node.get_right()), (Some(1), Some(2)));
    assert_eq!(node.get_value(), &SyntaxValue::Item(GO));
    assert!(node.if_done());
    node.set_as_right();
    assert!(!node.get_is_left());
    assert_eq!(node.take_project(), None);
    node.set_project(Some(bare(&[])));
    assert_eq!(node.get_project(), Some(&bare(&[])));
    node.set_moved(3);
    assert_eq!(node.get_moved(), Some(3));
    node.set_done();
    assert_eq!(node.number_of_children(), 2);
    assert!(tree.get_node_mut(9).is_err());
}

#[test]
fn pruning_splices_out_the_vacuous_nodes() {
    // 0 {S} - 3 {S} - 2 {V} - 1 go
    let mut tree = TreeModel::init(bare(&[S]));
    tree.receive(GO).unwrap();
    tree.decide(LexiconEntry::Lexical(entry(&[V]))).unwrap();
    tree.decide(LexiconEntry::Functional { to: entry(&[S]), project: None }).unwrap();
    assert_eq!(shape(&tree, 0), "0(3(2(1,-),-),-)");
    assert_eq!(tree.prune(), Ok(()));
    assert_eq!(shape(&tree, 0), "0(2(1,-),-)");
    assert_eq!(tree.get_parent(2), Ok(0));
    assert_eq!(tree.get_parent(3), Err(Error::NodeHasNoParent(3)));
    assert_eq!(tree.prune(), Ok(()));
    assert_eq!(shape(&tree, 0), "0(2(1,-),-)");
    assert_eq!(TreeModel::new().prune(), Ok(()));
}

#[test]
fn pruning_keeps_a_node_whose_parent_has_two_children() {
    let mut tree = TreeModel::new();
    let root = tree.new_node(features(&[S, V]));
    let left = tree.new_node(features(&[S]));
    let right = tree.new_node(features(&[V]));
    let below = tree.new_node(features(&[V]));
    tree.set_relation_left(root, left).unwrap();
    tree.set_relation_right(root, right).unwrap();
    tree.set_relation_right(right, below).unwrap();
    assert_eq!(tree.prune(), Ok(()));
    // below is a subset of right, its only parent: it goes; left and right stay
    assert_eq!(shape(&tree, 0), "0(1,2)");
}

#[test]
fn pruning_hangs_both_children_of_a_spliced_node_under_its_parent() {
    let mut tree = TreeModel::new();
    let root = tree.new_node(features(&[S, V]));
    let middle = tree.new_node(features(&[S]));
    let left = tree.new_node(SyntaxValue::Item(GO));
    let right = tree.new_node(features(&[N]));
    tree.set_relation_right(root, middle).unwrap();
    tree.set_relation_left(middle, left).unwrap();
    tree.set_relation_right(middle, right).unwrap();
    assert_eq!(tree.prune(), Ok(()));
    assert_eq!(shape(&tree, 0), "0(2,3)");
}

#[test]
fn a_walk_gives_up_on_what_is_no_tree() {
    let mut tree = TreeModel::new();
    let a = tree.new_node(features(&[S]));
    let b = tree.new_node(features(&[V]));
    tree.set_relation_left(a, b).unwrap();
    tree.set_relation_left(b, a).unwrap();
    assert_eq!(tree.prune(), Err(Error::NotATree(a)));
    // from the lower cursor, complete, the upward pass never meets a root
    tree.set_done(a).unwrap();
    tree.set_done(b).unwrap();
    assert_eq!(tree.try_project(), Err(Error::NotATree(b)));
}

#[test]
fn a_copy_is_independent() {
    let mut tree = TreeModel::init(bare(&[S]));
    let copy = tree.fork();
    tree.receive(GO).unwrap();
    assert_eq!(copy.size(), 1);
    assert_eq!(tree.size(), 2);
    assert_eq!(copy, TreeModel::init(bare(&[S])));
    assert_eq!(tree.get_node(1).unwrap().clone(), *tree.get_node(1).unwrap());
}
