use langbda::direction::Direction;
use langbda::interner::Interner;
use langbda::interpreter::{
    Interpreter, InterpreterResult, InterpreterState, LOTError, SyntaxTree, SyntaxTreeError,
    TodoTask, TreeNode, LOT,
};
use langbda::lexicon::lexicon::Lexicon;
use langbda::lexicon::Interpretation;
use langbda::sentence::{Sentence, SentenceParser};
use langbda::syntax::{FeatureSet, Key};
use langbda::syntax_node::SyntaxNode;
use langbda::text::Text;
use lasso::{Key as _, Spur, ThreadedRodeo};

/// An interner that refuses the empty name and, if it is strict, the
/// names with a question mark.
struct Names(ThreadedRodeo, bool);

impl Names {
    fn new() -> Names {
        Names(ThreadedRodeo::default(), false)
    }

    fn strict() -> Names {
        Names(ThreadedRodeo::default(), true)
    }

    fn key(&self, name: &str) -> Key {
        self.0.get_or_intern(name).into_usize() as Key
    }
}

impl Interner for Names {
    fn key_of(&self, _: Text) -> Option<Key> {
        unreachable!()
    }

    fn name_of(&self, _: Key) -> Option<Text> {
        unreachable!()
    }

    fn intern(&self, name: &str) -> Option<Key> {
        if name.is_empty() || (self.1 && name.contains('?')) {
            None
        } else {
            Some(self.key(name))
        }
    }

    fn resolve(&self, key: Key) -> Option<String> {
        let spur = Spur::try_from_usize(key as usize)?;
        self.0.try_resolve(&spur).map(|s| s.to_string())
    }
}

fn set(names: &Names, pairs: &[(&str, Option<&str>)]) -> FeatureSet {
    let mut fs = FeatureSet::new();
    for (category, value) in pairs {
        fs.insert(names.key(category), value.map(|v| names.key(v)));
    }
    fs
}

fn words(sentence: &Sentence) -> Vec<String> {
    sentence.as_str().into_iter().map(|w| w.to_string()).collect()
}

/// The tree below `idx`, written as `idx(left,right)`, `-` for no child.
fn shape(tree: &SyntaxTree, idx: usize) -> String {
    let node = tree.get_node(idx).unwrap();
    if node.get_left().is_none() && node.get_right().is_none() {
        return format!("{}", idx);
    }
    let side = |child: Option<usize>| match child {
        Some(c) => shape(tree, c),
        None => "-".to_string(),
    };
    format!("{}({},{})", idx, side(node.get_left()), side(node.get_right()))
}

#[test]
fn syntax_node_subset() {
    let names = Names::new();
    let mut f1 = FeatureSet::new();
    f1.insert(names.key("N"), None);
    f1.insert(names.key("number"), Some(names.key("Sg")));
    let l1 = SyntaxNode::from_feature_set(f1);

    let mut f2 = FeatureSet::new();
    f2.insert(names.key("N"), None);
    let l2 = SyntaxNode::from_feature_set(f2);

    assert!(l2.is_subset(&l1));
}

#[test]
fn a_lexical_item_is_contained_in_itself_only() {
    let names = Names::new();
    let a = SyntaxNode::from_lexical_str(names.key("a"));
    let b = SyntaxNode::from_lexical_str(names.key("b"));
    let n = SyntaxNode::from_feature_str(names.key("N"));
    assert!(a.is_subset(&a.clone()));
    assert!(!a.is_subset(&b));
    assert!(!a.is_subset(&n));
    assert!(!n.is_subset(&a));
    assert!(n.is_subset(&n));
    assert_eq!(n, SyntaxNode::Feat(set(&names, &[("N", None)])));
    assert_eq!(a.to_string(&names).unwrap(), "a");
    let both = SyntaxNode::from_feature_set(set(&names, &[("N", None), ("case", Some("subj"))]));
    assert_eq!(both.to_string(&names).unwrap(), "N, case:subj");
    assert!(!both.is_subset(&n));
}

#[test]
fn pest_sentence() {
    let sentence = "Whose naughty child ate the apple in the room?";
    let pest_result = SentenceParser::parse_sentence(sentence).unwrap();
    println!("{:#?}", pest_result);
    assert_eq!(pest_result.size(), 10);
}

#[test]
fn parse_sentence() {
    let input = "Whose naughty child ate the apple in the room?";
    let sentence = SentenceParser::parse_sentence(input).unwrap();
    println!("{:?}", sentence);
    assert_eq!(
        words(&sentence),
        ["whose", "naughty", "child", "ate", "the", "apple", "in", "the", "room", "?"]
    );
}

#[test]
fn the_first_token_of_a_sentence_begins_in_lower_case() {
    let mut sentence = Sentence::new();
    assert_eq!(sentence.size(), 0);
    sentence.add_token("Élan");
    sentence.add_token("Vital");
    assert_eq!(words(&sentence), ["élan", "Vital"]);
    assert_eq!(words(&Sentence::from_str("İstanbul calling").unwrap()), ["i\u{307}stanbul", "calling"]);
    assert_eq!(words(&Sentence::from_str("  hello, World ").unwrap()), ["hello", ",", "World"]);
    assert_eq!(words(&Sentence::from_str("").unwrap()), Vec::<String>::new());
    assert_eq!(words(&sentence.clone()), words(&sentence));
}

#[test]
fn a_token_all_in_upper_case_is_no_first_token() {
    assert_eq!(words(&Sentence::from_str("I am").unwrap()), ["am"]);
    assert_eq!(words(&Sentence::from_str("NASA, 42 and Us").unwrap()), ["and", "Us"]);
    assert_eq!(words(&Sentence::from_str("NASA, 42 Us").unwrap()), ["us"]);
    assert_eq!(words(&Sentence::from_str("we are NASA").unwrap()), ["we", "are", "NASA"]);
    assert_eq!(words(&Sentence::from_str("1 apple").unwrap()), ["apple"]);
    let mut sentence = Sentence::new();
    sentence.add_token("");
    sentence.add_token("?");
    assert_eq!(sentence.size(), 0);
}

#[test]
fn new_syntax_tree() {
    let names = Names::new();
    let sentence = "Whose naughty child ate the apple in the room?";
    let sentence = Sentence::from_str(sentence).unwrap();
    let tree = SyntaxTree::init(&names, &sentence, "S");
    println!("{:#?}", tree);
    let tree = tree.unwrap();
    assert_eq!(tree.get_size(), 1);
    assert_eq!(tree.get_root(), Some(&TreeNode::new(
        SyntaxNode::from_feature_str(names.key("S")),
        0,
        None,
        None,
        None
    )));
    assert_eq!(tree.todo_peek(), Some(&TodoTask::Val(0)));
    assert_eq!(tree.tokens().last(), Some(&names.key("whose")));
    assert_eq!(tree.tokens().first(), Some(&names.key("?")));
    assert_eq!(tree.tokens().len(), 10);
    assert!(!tree.job_done());
    assert!(SyntaxTree::new().job_done());
}

#[test]
fn a_tree_needs_keys_for_its_target_and_its_tokens() {
    let names = Names::strict();
    let sentence = Sentence::from_str("who ate the apple?").unwrap();
    assert_eq!(SyntaxTree::init(&names, &sentence, "S").err(), Some(SyntaxTreeError::FromStr));
    let sentence = Sentence::from_str("who ate the apple").unwrap();
    assert_eq!(SyntaxTree::init(&names, &sentence, "").err(), Some(SyntaxTreeError::FromStr));
    assert!(SyntaxTree::init(&names, &sentence, "S").is_ok());
}

#[test]
fn syntax_tree_add_token() {
    let names = Names::new();
    let sentence = "Whose naughty child ate the apple in the room?";
    let sentence = Sentence::from_str(sentence).unwrap();
    let mut tree = SyntaxTree::init(&names, &sentence, "S").unwrap();
    tree.add_token().unwrap();
    println!("{:#?}", tree);
    assert_eq!(shape(&tree, 0), "0(1,-)");
    assert_eq!(
        tree.get_node(1).unwrap().get_value(),
        &SyntaxNode::from_lexical_str(names.key("whose"))
    );
    assert_eq!(tree.todo_peek(), Some(&TodoTask::Lambda { from: 1, to: 0 }));
    assert_eq!(tree.tokens().len(), 9);
    assert_eq!(tree.add_token(), Err(SyntaxTreeError::NotVal));
    assert_eq!(tree.add_token(), Err(SyntaxTreeError::TodoStackEmpty));
    assert_eq!(tree.tokens().len(), 7);
}

#[test]
fn syntax_tree_apply_entry() {
    let names = Names::new();
    let sentence = "Whose naughty child ate the apple in the room?";
    let sentence = Sentence::from_str(sentence).unwrap();
    let mut tree = SyntaxTree::init(&names, &sentence, "S").unwrap();
    tree.add_token().unwrap();

    let sn1 = SyntaxNode::from_lexical_str(names.key("whose"));
    let mut fs1 = FeatureSet::new();
    fs1.insert(names.key("Det"), None);
    let interp1 = Interpretation::Val(fs1);
    tree.apply_entry(&sn1, &interp1).unwrap();
    assert_eq!(shape(&tree, 0), "0(2(1,-),-)");
    assert_eq!(tree.todo_peek(), Some(&TodoTask::Lambda { from: 2, to: 0 }));

    let sn2 = SyntaxNode::from_feature_str(names.key("Det"));
    let mut fs2 = FeatureSet::new();
    fs2.insert(names.key("Det"), None);
    fs2.insert(names.key("clause"), Some(names.key("question")));
    let interp2 = Interpretation::Val(fs2);
    tree.apply_entry(&sn2, &interp2).unwrap();
    assert_eq!(shape(&tree, 0), "0(3(2(1,-),-),-)");
    assert_eq!(
        tree.todo_peek(),
        Some(&TodoTask::Project { from: 2, to: 3, ignore: set(&names, &[("Det", None)]) })
    );

    let mut fs3 = FeatureSet::new();
    fs3.insert(names.key("Det"), None);
    fs3.insert(names.key("clause"), Some(names.key("question")));
    let sn3 = SyntaxNode::from_feature_set(fs3);
    let mut fs4 = FeatureSet::new();
    fs4.insert(names.key("N"), None);
    let mut fs5 = FeatureSet::new();
    fs5.insert(names.key("Det"), None);
    fs5.insert(names.key("N"), None);
    fs5.insert(names.key("clause"), Some(names.key("question")));
    fs5.insert(names.key("case"), Some(names.key("subj")));
    let interp3 = Interpretation::Lambda { from: fs4, to: fs5, projection: Direction::Left };
    tree.todo_pop();
    tree.apply_entry(&sn3, &interp3).unwrap();
    println!("{:#?}", tree);
    assert_eq!(shape(&tree, 0), "0(4(3(2(1,-),-),5),-)");
    assert_eq!(tree.todo_pop(), Some(TodoTask::Val(5)));
    assert_eq!(
        tree.todo_pop(),
        Some(TodoTask::Project {
            from: 3,
            to: 4,
            ignore: set(&names, &[("Det", None), ("clause", Some("question"))])
        })
    );
    assert_eq!(tree.todo_pop(), Some(TodoTask::Lambda { from: 4, to: 0 }));
    assert_eq!(tree.todo_pop(), None);
    assert_eq!(tree.calc_depth(tree.get_node(1).unwrap()), Ok(4));
    assert_eq!(tree.calc_depth(tree.get_node(5).unwrap()), Ok(2));
    assert_eq!(tree.calc_depth(tree.get_root().unwrap()), Ok(0));
}

#[test]
fn a_function_from_the_right_hands_on_what_its_argument_adds() {
    let names = Names::new();
    let sentence = Sentence::from_str("the child").unwrap();
    let mut tree = SyntaxTree::init(&names, &sentence, "NP").unwrap();
    tree.add_token().unwrap();
    let the = SyntaxNode::from_lexical_str(names.key("the"));
    tree.apply_entry(&the, &Interpretation::Val(set(&names, &[("Det", None)]))).unwrap();
    let det = SyntaxNode::from_feature_str(names.key("Det"));
    let takes_noun = Interpretation::Lambda {
        from: set(&names, &[("N", None)]),
        to: set(&names, &[("NP", None)]),
        projection: Direction::Right,
    };
    tree.apply_entry(&det, &takes_noun).unwrap();
    assert_eq!(shape(&tree, 0), "0(3(2(1,-),4),-)");
    // the argument awaits a token
    tree.add_token().unwrap();
    assert_eq!(shape(&tree, 0), "0(3(2(1,-),4(5,-)),-)");
    let child = SyntaxNode::from_lexical_str(names.key("child"));
    let noun = set(&names, &[("N", None), ("number", Some("sg"))]);
    tree.apply_entry(&child, &Interpretation::Val(noun.clone())).unwrap();
    assert_eq!(shape(&tree, 0), "0(3(2(1,-),4(6(5,-),-)),-)");
    // the noun satisfies the argument, whose features it completes
    assert_eq!(tree.delete_identity_lambda(), Ok(()));
    assert_eq!(tree.get_features(4), Ok(&noun));
    // the argument hands on what it has more than was asked for
    assert_eq!(tree.do_projection(), Ok(()));
    assert_eq!(tree.get_features(3), Ok(&set(&names, &[("NP", None), ("number", Some("sg"))])));
    // the result satisfies the root
    assert_eq!(tree.delete_identity_lambda(), Ok(()));
    assert_eq!(tree.get_features(0), Ok(&set(&names, &[("NP", None), ("number", Some("sg"))])));
    assert!(tree.job_done());
    assert_eq!(
        LOT::from_syntax_tree(&tree),
        Ok(LOT::Node {
            left: Box::new(LOT::Leaf { value: names.key("the") }),
            right: Box::new(LOT::Leaf { value: names.key("child") })
        })
    );
    assert_eq!(
        LOT::from_syntax_tree(&tree).unwrap().to_string(&names).unwrap(),
        "\n[\n    [the] \n    [child]]"
    );
}

#[test]
fn steps_fail_on_the_wrong_task() {
    let names = Names::new();
    let sentence = Sentence::from_str("the child").unwrap();
    let mut tree = SyntaxTree::init(&names, &sentence, "NP").unwrap();
    let the = SyntaxNode::from_lexical_str(names.key("the"));
    let det = Interpretation::Val(set(&names, &[("Det", None)]));
    assert_eq!(tree.clone().apply_entry(&the, &det), Err(SyntaxTreeError::ApplyToNonLambda));
    assert_eq!(tree.clone().do_projection(), Err(SyntaxTreeError::NotProject));
    assert_eq!(tree.clone().delete_identity_lambda(), Err(SyntaxTreeError::DeleteNonLambda));
    tree.add_token().unwrap();
    assert_eq!(tree.clone().do_projection(), Err(SyntaxTreeError::NotProject));
    // the token is no feature set
    assert_eq!(tree.clone().delete_identity_lambda(), Err(SyntaxTreeError::NotFeatures(1)));
    // a lexical item takes no function, and no entry for a feature set
    let function = Interpretation::Lambda {
        from: set(&names, &[("N", None)]),
        to: set(&names, &[("NP", None)]),
        projection: Direction::Left,
    };
    assert_eq!(tree.clone().apply_entry(&the, &function), Err(SyntaxTreeError::InvalidEntry));
    let feat = SyntaxNode::from_feature_str(names.key("Det"));
    assert_eq!(tree.clone().apply_entry(&feat, &det), Err(SyntaxTreeError::InvalidEntry));
    tree.apply_entry(&the, &det).unwrap();
    // Det is no subset of NP
    assert_eq!(
        tree.clone().delete_identity_lambda(),
        Err(SyntaxTreeError::NotSubset { to: 0, from: 2 })
    );
    let mut empty = SyntaxTree::new();
    assert_eq!(empty.add_token(), Err(SyntaxTreeError::TokenStackEmpty));
    assert_eq!(empty.apply_entry(&the, &det), Err(SyntaxTreeError::TodoStackEmpty));
    assert_eq!(empty.do_projection(), Err(SyntaxTreeError::TodoStackEmpty));
    assert_eq!(empty.delete_identity_lambda(), Err(SyntaxTreeError::TodoStackEmpty));
    assert_eq!(empty.get_root(), None);
}

#[test]
fn tasks_on_missing_nodes_fail() {
    let names = Names::new();
    let n = SyntaxNode::from_feature_str(names.key("N"));
    let interp = Interpretation::Val(set(&names, &[("N", None)]));
    let mut tree = SyntaxTree::new();
    tree.todo_push(TodoTask::Lambda { from: 3, to: 0 });
    assert_eq!(tree.clone().apply_entry(&n, &interp), Err(SyntaxTreeError::NoNode(3)));
    assert_eq!(tree.clone().delete_identity_lambda(), Err(SyntaxTreeError::NoNode(3)));
    let mut tree = SyntaxTree::new();
    tree.todo_push(TodoTask::Project { from: 0, to: 1, ignore: FeatureSet::new() });
    assert_eq!(tree.clone().do_projection(), Err(SyntaxTreeError::NoNode(0)));
    assert_eq!(tree.add_parent_node(n.clone(), Some(7)), Err(SyntaxTreeError::NoChild { child: 7, node: 0 }));
    assert_eq!(
        tree.add_child_node(n.clone(), Some(7), Direction::Left),
        Err(SyntaxTreeError::NoParent { parent: 7, node: 0 })
    );
    assert_eq!(tree.add_child_node(n.clone(), None, Direction::Right), Ok(0));
    assert_eq!(tree.add_child_node(n.clone(), Some(0), Direction::Right), Ok(1));
    assert_eq!(tree.add_child_node(n.clone(), Some(0), Direction::Right), Ok(2));
    assert_eq!(shape(&tree, 0), "0(-,2(1,-))");
    assert_eq!(tree.add_parent_node(n.clone(), Some(1)), Ok(3));
    assert_eq!(shape(&tree, 0), "0(-,2(3(1,-),-))");
    assert_eq!(tree.add_parent_node(n.clone(), None), Ok(4));
    // a merge that meets a category of the target fails
    let mut tree = SyntaxTree::new();
    tree.add_child_node(SyntaxNode::Feat(set(&names, &[("N", None)])), None, Direction::Left).unwrap();
    tree.add_child_node(SyntaxNode::Feat(set(&names, &[("N", None)])), Some(0), Direction::Left).unwrap();
    tree.todo_push(TodoTask::Project { from: 1, to: 0, ignore: FeatureSet::new() });
    assert_eq!(
        tree.do_projection(),
        Err(SyntaxTreeError::Syntax(langbda::syntax::Error::CategoryAlreadyHasValue))
    );
    // a walk towards the root gives up on what is no tree
    let mut tree = SyntaxTree::new();
    tree.add_child_node(n.clone(), None, Direction::Left).unwrap();
    tree.get_node_mut(0).unwrap().set_parent(Some(0));
    assert_eq!(tree.calc_depth(tree.get_node(0).unwrap()), Err(SyntaxTreeError::NotATree(0)));
    tree.get_node_mut(0).unwrap().set_parent(Some(5));
    assert_eq!(
        tree.calc_depth(tree.get_node(0).unwrap()),
        Err(SyntaxTreeError::NoParent { parent: 5, node: 0 })
    );
    tree.get_node_mut(0).unwrap().set_left(Some(0));
    assert_eq!(LOT::from_syntax_tree(&tree), Ok(LOT::Empty));
    assert_eq!(tree.get_size(), 1);
}

#[test]
fn nodes_and_tasks_are_written() {
    let names = Names::new();
    let mut node = TreeNode::new(SyntaxNode::from_lexical_str(names.key("apple")), 3, None, None, None);
    assert_eq!(node.to_string(&names).unwrap(), "3 apple");
    node.set_idx(12);
    node.set_parent(Some(1));
    node.set_left(Some(2));
    node.set_right(Some(4));
    *node.get_value_mut() = SyntaxNode::from_feature_str(names.key("N"));
    assert_eq!(node.to_string(&names).unwrap(), "12 N");
    assert_eq!((node.get_idx(), node.get_parent()), (12, Some(1)));
    assert_eq!((node.get_left(), node.get_right()), (Some(2), Some(4)));
    assert_eq!(node.clone(), node);
    assert_eq!(TodoTask::Val(7).to_string(), "7");
    assert_eq!(TodoTask::Lambda { from: 3, to: 10 }.to_string(), "(3, 10)");
    let project = TodoTask::Project { from: 3, to: 10, ignore: FeatureSet::new() };
    assert_eq!(project.to_string(), "<3, 10>");
    assert_eq!(project.clone(), project);
    let left = Interpretation::Lambda {
        from: set(&names, &[("N", None)]),
        to: set(&names, &[("NP", None), ("case", Some("subj"))]),
        projection: Direction::Left,
    };
    assert_eq!(left.to_string(&names).unwrap(), "N > NP, case:subj");
    let right = Interpretation::Lambda {
        from: set(&names, &[("N", None)]),
        to: set(&names, &[("NP", None)]),
        projection: Direction::Right,
    };
    assert_eq!(right.to_string(&names).unwrap(), "N >> NP");
    assert_eq!(Interpretation::Val(set(&names, &[("N", None)])).to_string(&names).unwrap(), "N");
    assert_eq!(right.clone(), right);
}

#[test]
fn a_tree_of_lexical_items_has_sides_only_at_its_nodes() {
    let mut lot = LOT::new();
    assert_eq!(lot.new_leaf_left(1), Ok(()));
    assert_eq!(lot.new_node_right(), Ok(()));
    assert_eq!(
        lot,
        LOT::Node { left: Box::new(LOT::Leaf { value: 1 }), right: Box::new(LOT::new()) }
    );
    assert_eq!(lot.new_node_left(), Ok(()));
    assert_eq!(lot.new_leaf_right(2), Ok(()));
    assert_eq!(
        lot,
        LOT::Node { left: Box::new(LOT::new()), right: Box::new(LOT::Leaf { value: 2 }) }
    );
    assert!(lot.equals(&lot.clone()));
    assert!(!lot.equals(&LOT::new()));
    let mut leaf = LOT::Leaf { value: 1 };
    assert_eq!(leaf.new_leaf_left(1), Err(LOTError::NotANode));
    assert_eq!(leaf.new_leaf_right(1), Err(LOTError::NotANode));
    assert_eq!(leaf.new_node_left(), Err(LOTError::NotANode));
    let mut empty = LOT::empty();
    assert_eq!(empty.new_node_right(), Err(LOTError::NotANode));
    assert_eq!(empty, LOT::Empty);
}

fn english(names: &Names) -> Lexicon {
    let mut lexicon = Lexicon::new();
    lexicon.insert_lexical(names.key("the"), set(names, &[("Det", None)]));
    lexicon.insert_lexical(names.key("child"), set(names, &[("N", None)]));
    lexicon.insert_functional(
        set(names, &[("Det", None)]),
        Interpretation::Lambda {
            from: set(names, &[("N", None)]),
            to: set(names, &[("NP", None)]),
            projection: Direction::Right,
        },
    );
    lexicon
}

#[test]
fn a_lexicon_holds_the_interpretations_of_each_node() {
    let names = Names::new();
    let mut lexicon = english(&names);
    let the = SyntaxNode::from_lexical_str(names.key("the"));
    assert_eq!(
        lexicon.get_vec(&the),
        Some(&vec![Interpretation::Val(set(&names, &[("Det", None)]))])
    );
    lexicon.insert(the.clone(), Interpretation::Val(set(&names, &[("Pron", None)])));
    assert_eq!(
        lexicon.get_vec(&the),
        Some(&vec![
            Interpretation::Val(set(&names, &[("Det", None)])),
            Interpretation::Val(set(&names, &[("Pron", None)]))
        ])
    );
    assert_eq!(lexicon.get_vec(&SyntaxNode::from_lexical_str(names.key("apple"))), None);
    assert_eq!(lexicon.get_vec(&SyntaxNode::from_feature_str(names.key("the"))), None);
    let all = lexicon.iter_all();
    assert_eq!(all.len(), 3);
    let of = |node: &SyntaxNode| all.iter().find(|(n, _)| n == node).map(|(_, v)| v.len());
    assert_eq!(of(&SyntaxNode::from_feature_str(names.key("Det"))), Some(1));
    assert_eq!(of(&SyntaxNode::from_lexical_str(names.key("child"))), Some(1));
    assert_eq!(of(&the), Some(2));
    assert_eq!(of(&SyntaxNode::from_lexical_str(names.key("apple"))), None);
    assert_eq!(Lexicon::new().iter_all().len(), 0);
}

#[test]
fn the_interpreter_builds_every_tree_round_by_round() {
    let names = Names::strict();
    let lexicon = english(&names);
    let interpreter = Interpreter::new("The child", "NP", &lexicon);
    let trees = interpreter.run(&names, 20).unwrap();
    assert_eq!(trees.len(), 1);
    assert!(trees[0].job_done());
    assert_eq!(shape(&trees[0], 0), "0(3(2(1,-),4(6(5,-),-)),-)");
    assert_eq!(
        LOT::from_syntax_trees(&trees),
        Ok(vec![LOT::Node {
            left: Box::new(LOT::Leaf { value: names.key("the") }),
            right: Box::new(LOT::Leaf { value: names.key("child") })
        }])
    );
    let twice = vec![trees[0].clone(), trees[0].clone(), SyntaxTree::new()];
    assert_eq!(LOT::from_syntax_trees(&twice).unwrap().len(), 2);
    // the rounds may run out
    assert_eq!(interpreter.run(&names, 3).err(), Some(SyntaxTreeError::Unfinished));
    // a sentence that the lexicon does not cover has no tree
    assert_eq!(Interpreter::new("the the", "NP", &lexicon).run(&names, 20), Ok(Vec::new()));
    assert_eq!(Interpreter::new("child", "NP", &lexicon).run(&names, 20), Ok(Vec::new()));
    assert_eq!(
        Interpreter::new("the child?", "NP", &lexicon).run(&names, 20).err(),
        Some(SyntaxTreeError::FromStr)
    );
}

#[test]
fn a_step_sorts_the_trees_into_those_to_go_on_with_and_those_done() {
    let names = Names::new();
    let lexicon = english(&names);
    let listing = lexicon.iter_all();
    let mut states = InterpreterState::new();
    let mut results = InterpreterResult::new();
    assert!(states.is_empty());
    let done = SyntaxTree::new();
    assert_eq!(Interpreter::run_state(&mut states, &mut results, done, &listing), Ok(()));
    assert_eq!(results.results.len(), 1);
    assert!(states.is_empty());
    let sentence = Sentence::from_str("the").unwrap();
    let tree = SyntaxTree::init(&names, &sentence, "NP").unwrap();
    assert_eq!(Interpreter::run_state(&mut states, &mut results, tree, &listing), Ok(()));
    assert_eq!(states.states.len(), 1);
    let mut stuck = SyntaxTree::init(&names, &sentence, "NP").unwrap();
    stuck.todo_pop();
    assert_eq!(
        Interpreter::run_state(&mut states, &mut results, stuck, &listing),
        Err(SyntaxTreeError::TodoStackEmpty)
    );
    let mut astray = SyntaxTree::new();
    astray.todo_push(TodoTask::Lambda { from: 9, to: 0 });
    assert_eq!(
        Interpreter::run_state(&mut states, &mut results, astray, &listing),
        Err(SyntaxTreeError::NoNode(9))
    );
    states.push(SyntaxTree::new());
    results.push(SyntaxTree::new());
    assert_eq!((states.states.len(), results.results.len()), (2, 2));
}

#[test]
fn a_lexicon_is_written_section_by_section_in_ascending_order() {
    let names = Names::new();
    let mut lexicon = english(&names);
    lexicon.insert_lexical(names.key("the"), set(&names, &[("Pron", None), ("case", Some("nom"))]));
    lexicon.insert_functional(
        set(&names, &[("Adj", None)]),
        Interpretation::Lambda {
            from: set(&names, &[("N", None)]),
            to: set(&names, &[("N", None)]),
            projection: Direction::Left,
        },
    );
    let pron = set(&names, &[("Pron", None), ("case", Some("nom"))]);
    let pron = format!("the = {}", pron.to_string_with(&names, ", ").unwrap());
    let mut lexical = vec!["child = N".to_string(), "the = Det".to_string(), pron];
    lexical.sort();
    assert_eq!(
        lexicon.to_string(&names).unwrap(),
        format!("[Functional]\nAdj = N > N\nDet = N >> NP\n\n[Lexical]\n{}\n", lexical.join("\n"))
    );
    assert_eq!(Lexicon::new().to_string(&names).unwrap(), "[Functional]\n\n\n[Lexical]\n\n");
    lexicon.insert_lexical(names.key("it") + 100, FeatureSet::new());
    assert_eq!(lexicon.to_string(&names), None);
}

#[test]
fn a_syntax_tree_is_written_with_its_tokens_and_tasks() {
    let names = Names::new();
    assert_eq!(
        SyntaxTree::new().to_string(&names).unwrap(),
        "Token Stack: \nTodo Stack: \n\nTree:\nNO TREE\n"
    );
    let sentence = Sentence::from_str("The child").unwrap();
    let mut tree = SyntaxTree::init(&names, &sentence, "NP").unwrap();
    assert_eq!(
        tree.to_string(&names).unwrap(),
        "Token Stack: child, the\nTodo Stack: 0\n\nTree:\n\n[0 NP] \n"
    );
    tree.add_token().unwrap();
    assert_eq!(
        tree.to_string(&names).unwrap(),
        "Token Stack: child\nTodo Stack: (1, 0)\n\nTree:\n\n[0 NP]\n    [1 the]  \n"
    );
    let lexicon = english(&names);
    let interpreter = Interpreter::new("The child", "NP", &lexicon);
    let trees = interpreter.run(&names, 20).unwrap();
    assert_eq!(shape(&trees[0], 0), "0(3(2(1,-),4(6(5,-),-)),-)");
    let text = trees[0].to_string(&names).unwrap();
    let lines: Vec<&str> = text.lines().collect();
    assert_eq!(lines[..5], ["Token Stack: ", "Todo Stack: ", "", "Tree:", ""]);
    assert_eq!(lines[5], "[0 NP]");
    assert!(lines[6].starts_with("    [3 "));
    assert!(lines[7].starts_with("        [2 "));
    assert_eq!(lines[8], "            [1 the]  ");
    assert!(lines[9].starts_with("        [4 "));
    assert!(lines[10].starts_with("            [6 "));
    assert_eq!(lines[11], format!("                [5 child]{}", " ".repeat(5)));
    assert_eq!(lines.len(), 12);
    tree.get_node_mut(1).unwrap().set_right(Some(9));
    assert_eq!(
        tree.to_string(&names).unwrap(),
        "Token Stack: child\nTodo Stack: (1, 0)\n\nTree:\nNO TREE\n"
    );
    tree.get_node_mut(1).unwrap().set_right(Some(0));
    assert!(tree.to_string(&names).unwrap().ends_with("Tree:\nNO TREE\n"));
    tree.get_node_mut(1).unwrap().set_right(None);
    let unnamed = SyntaxNode::from_lexical_str(names.key("it") + 100);
    *tree.get_node_mut(1).unwrap().get_value_mut() = unnamed;
    assert_eq!(tree.to_string(&names), None);
}
