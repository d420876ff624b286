use langbda::cognitive::lambda::Node as FrontierNode;
use langbda::cognitive::tree::Error;
use langbda::cognitive::{CognitiveModel, LambdaModel, TreeModel};
use langbda::interpreter::Action;
use langbda::trie::TrieMultiMap;
use langbda::interner::Interner;
use langbda::lexicon::{write_entries, Lexicon, LexiconEntry, LexiconNode, SimpleLexicon};
use langbda::syntax::{FeatureSet, Key, SyntaxValue};
use langbda::text::{blank_text, comes_before, decimal_text, join, sort, Text};
use lasso::{Key as _, Spur, ThreadedRodeo};

struct GlobalKey(ThreadedRodeo);

impl GlobalKey {
    fn new() -> GlobalKey {
        GlobalKey(ThreadedRodeo::default())
    }

    fn from_str(&self, name: &str) -> Result<Key, ()> {
        self.intern(name).ok_or(())
    }
}

impl Interner for GlobalKey {
    fn key_of(&self, _: Text) -> Option<Key> {
        unreachable!()
    }

    fn name_of(&self, _: Key) -> Option<Text> {
        unreachable!()
    }

    fn intern(&self, name: &str) -> Option<Key> {
        Some(self.0.get_or_intern(name).into_usize() as Key)
    }

    fn resolve(&self, key: Key) -> Option<String> {
        let spur = Spur::try_from_usize(key as usize)?;
        self.0.try_resolve(&spur).map(|s| s.to_string())
    }
}

fn strings(words: &[&str]) -> Vec<String> {
    words.iter().map(|w| w.to_string()).collect()
}

#[test]
fn print_feature_set() {
    let names = GlobalKey::new();
    let a = names.from_str("a").unwrap();
    let b = names.from_str("b").unwrap();
    let c = names.from_str("c").unwrap();
    let d = names.from_str("d").unwrap();
    let mut feature_set = FeatureSet::new();
    feature_set.insert(a, Some(b));
    feature_set.insert(c, Some(d));
    assert_eq!(feature_set.to_string(&names).unwrap(), "a:b--c:d");
}

#[test]
fn the_pairs_are_written_in_the_order_of_a_dictionary() {
    let names = GlobalKey::new();
    let z = names.from_str("z").unwrap();
    let n = names.from_str("N").unwrap();
    let case = names.from_str("case").unwrap();
    let nom = names.from_str("nom").unwrap();
    let mut fs = FeatureSet::new();
    fs.insert(z, None);
    fs.insert(n, None);
    fs.insert(case, Some(nom));
    assert_eq!(fs.entries(&names), Some(strings(&["z", "N", "case:nom"])));
    assert_eq!(fs.to_string(&names).unwrap(), "N--case:nom--z");
    assert_eq!(FeatureSet::new().to_string(&names).unwrap(), "");
    assert_eq!(SyntaxValue::Features(fs.clone()).to_string(&names).unwrap(), "N--case:nom--z");
    assert_eq!(SyntaxValue::Item(z).to_string(&names).unwrap(), "z");
    assert_eq!(
        SyntaxValue::Features(fs).to_dot_attr(&names).unwrap(),
        "label=\"N\ncase:nom\nz\", color=lightblue"
    );
    assert_eq!(
        SyntaxValue::Item(case).to_dot_attr(&names).unwrap(),
        "label=\"case\", color=lightgreen"
    );
}

#[test]
fn a_key_without_a_name_cannot_be_written() {
    let names = GlobalKey::new();
    let a = names.from_str("a").unwrap();
    let mut fs = FeatureSet::new();
    fs.insert(a, Some(a + 1));
    assert_eq!(fs.to_string(&names), None);
    assert_eq!(fs.entries(&names), None);
    assert_eq!(SyntaxValue::Item(a + 1).to_string(&names), None);
    assert_eq!(SyntaxValue::Item(a + 1).to_dot_attr(&names), None);
    assert_eq!(SyntaxValue::Features(fs.clone()).to_dot_attr(&names), None);
    let tree = TreeModel::init(fs);
    assert_eq!(tree.to_dot_graph(&names), Err(Error::StdFmt));
}

#[test]
fn a_tree_is_written_as_a_graph() {
    let names = GlobalKey::new();
    let s = names.from_str("S").unwrap();
    let go = names.from_str("go").unwrap();
    let v = names.from_str("V").unwrap();
    let mut tree = TreeModel::init(FeatureSet::from_category(s));
    tree.receive(go).unwrap();
    tree.decide(LexiconEntry::Lexical(LexiconNode::Moved { from: FeatureSet::from_category(v) }))
        .unwrap();
    let expected = [
        "digraph {{\n",
        "    rankdir=TB;\n",
        "    node [shape=box, style=filled];\n",
        "    \"0\" [label=\"S\", color=lightblue];\n",
        "    \"0\" -> \"2\" [arrowhead=none];\n",
        "    \"2\" [label=\"V\", color=lightblue];\n",
        "    \"2\" -> \"1\" [arrowhead=none];\n",
        "    \"2\" -> \"1\" [style=dashed, constraint=false, color=blue];\n",
        "    \"1\" [label=\"go\", color=lightgreen];\n",
        "}}",
    ]
    .concat();
    assert_eq!(tree.to_dot_graph(&names), Ok(expected));
    assert_eq!(TreeModel::new().to_dot_graph(&names), Ok(String::new()));
}

#[test]
fn the_right_child_is_written_before_the_left() {
    let names = GlobalKey::new();
    let s = names.from_str("S").unwrap();
    let a = names.from_str("a").unwrap();
    let b = names.from_str("b").unwrap();
    let mut tree = TreeModel::new();
    let root = tree.new_node(SyntaxValue::Features(FeatureSet::from_category(s)));
    let left = tree.new_node(SyntaxValue::Item(a));
    let right = tree.new_node(SyntaxValue::Item(b));
    tree.set_relation_left(root, left).unwrap();
    tree.set_relation_right(root, right).unwrap();
    let expected = [
        "digraph {{\n",
        "    rankdir=TB;\n",
        "    node [shape=box, style=filled];\n",
        "    \"0\" [label=\"S\", color=lightblue];\n",
        "    \"0\" -> \"1\" [arrowhead=none];\n",
        "    \"0\" -> \"2\" [arrowhead=none];\n",
        "    \"2\" [label=\"b\", color=lightgreen];\n",
        "    \"1\" [label=\"a\", color=lightgreen];\n",
        "}}",
    ]
    .concat();
    assert_eq!(tree.to_dot_graph(&names), Ok(expected));
    // what is no tree cannot be written to the end
    tree.set_relation_left(left, root).unwrap();
    assert_eq!(tree.to_dot_graph(&names), Err(Error::NotATree(0)));
    assert_eq!(tree.set_relation_right(right, 9), Err(Error::NodeNotFound(9)));
    assert_eq!(tree.to_dot_graph(&names), Err(Error::NodeNotFound(9)));
}

#[test]
fn numbers_are_written_in_decimal() {
    for n in [0usize, 1, 9, 10, 11, 99, 100, 101, 12345, 9876543210, usize::MAX] {
        assert_eq!(decimal_text(n), n.to_string());
    }
    assert_eq!(blank_text(0), "");
    assert_eq!(blank_text(4), "    ");
}

#[test]
fn texts_are_ordered_as_the_standard_library_orders_them() {
    let words = ["", "a", "b", "ab", "abc", "B", "é", "e", "ez", "日本", "日", "z", "\u{10000}", "~"];
    for a in words {
        for b in words {
            assert_eq!(comes_before(a, b), a <= b, "{:?} {:?}", a, b);
        }
    }
}

#[test]
fn sorting_gives_what_the_standard_library_gives() {
    let words = ["pear", "apple", "", "fig", "apple", "Apple", "z", "é", "fi", "figs"];
    let mut expected = strings(&words);
    expected.sort();
    assert_eq!(sort(strings(&words)), expected);
    assert_eq!(sort(Vec::new()), Vec::<String>::new());
    assert_eq!(sort(strings(&["b", "a"])), strings(&["a", "b"]));
}

#[test]
fn joining_puts_the_separator_between() {
    assert_eq!(join(&strings(&[]), "--"), "");
    assert_eq!(join(&strings(&["a"]), "--"), "a");
    assert_eq!(join(&strings(&["a", "b", "c"]), "--"), "a--b--c");
    assert_eq!(join(&strings(&["", ""]), ", "), ", ");
}

fn bare(names: &GlobalKey, words: &[&str]) -> FeatureSet {
    let mut fs = FeatureSet::new();
    for w in words {
        fs.insert(names.from_str(w).unwrap(), None);
    }
    fs
}

fn value(names: &GlobalKey, words: &[&str]) -> LexiconNode {
    LexiconNode::Value { value: SyntaxValue::Features(bare(names, words)) }
}

#[test]
fn nodes_entries_and_actions_are_written() {
    let names = GlobalKey::new();
    let n = value(&names, &["N", "sg"]);
    assert_eq!(n.to_string(&names).unwrap(), "N--sg");
    let left = LexiconNode::Lambda {
        from: Box::new(value(&names, &["N"])),
        to: bare(&names, &["NP"]),
        project: false,
    };
    assert_eq!(left.to_string(&names).unwrap(), "(N > NP)");
    let right = LexiconNode::Lambda {
        from: Box::new(left.clone()),
        to: bare(&names, &["S", "V"]),
        project: true,
    };
    assert_eq!(right.to_string(&names).unwrap(), "((N > NP) >> S--V)");
    let moved = LexiconNode::Moved { from: bare(&names, &["wh"]) };
    assert_eq!(moved.to_string(&names).unwrap(), "MOVED(wh)");
    assert_eq!(
        LexiconEntry::Lexical(moved.clone()).to_string(&names).unwrap(),
        "token = MOVED(wh)"
    );
    let rule = LexiconEntry::Functional { to: left.clone(), project: Some(bare(&names, &["x"])) };
    assert_eq!(rule.to_string(&names).unwrap(), "interpretation = (N > NP)");
    let the = names.from_str("the").unwrap();
    assert_eq!(Action::AddToken(the).to_string(&names).unwrap(), "Add token [the]");
    assert_eq!(
        Action::ApplyEntry(rule).to_string(&names).unwrap(),
        "Apply entry [interpretation = (N > NP)]"
    );
    assert_eq!(Action::AddToken(the + 100).to_string(&names), None);
    let unnamed = LexiconNode::Value { value: SyntaxValue::Item(the + 100) };
    assert_eq!(unnamed.to_string(&names), None);
    assert_eq!(LexiconEntry::Lexical(unnamed.clone()).to_string(&names), None);
    assert_eq!(Action::ApplyEntry(LexiconEntry::Lexical(unnamed)).to_string(&names), None);
}

#[test]
fn the_frontier_model_is_written_from_the_bottom_to_the_focus() {
    let names = GlobalKey::new();
    let mut model = LambdaModel::init(bare(&names, &["S"]));
    assert_eq!(model.to_string(&names).unwrap(), "S");
    model.receive(names.from_str("the").unwrap()).unwrap();
    assert_eq!(model.to_string(&names).unwrap(), "\u{3bb}(the -> S)");
    let the = LexiconNode::Lambda {
        from: Box::new(value(&names, &["N"])),
        to: bare(&names, &["NP"]),
        project: true,
    };
    model.decide(LexiconEntry::Lexical(the)).unwrap();
    assert_eq!(model.to_string(&names).unwrap(), "\u{3bb}(NP -> S), >>(ignore: N), N");
    assert_eq!(LambdaModel::new().to_string(&names).unwrap(), "");
    let mut model = LambdaModel::new();
    model.push(FrontierNode::Value { value: SyntaxValue::Item(12345) });
    assert_eq!(model.to_string(&names), None);
}

#[test]
fn test_display() {
    let names = GlobalKey::new();
    let label = |c: char| (names.from_str(&c.to_string()).unwrap(), None);
    let labels = |cs: [char; 3]| cs.iter().map(|c| label(*c)).collect::<Vec<_>>();
    let number = |n: u32| LexiconNode::Value {
        value: SyntaxValue::Item(names.from_str(&n.to_string()).unwrap()),
    };
    let mut map = TrieMultiMap::new();
    map.insert(labels(['1', '2', '3']), number(123));
    map.insert(labels(['1', '2', '4']), number(124));
    map.insert(labels(['1', '5', '6']), number(156));
    map.insert(labels(['1', '5', '7']), number(157));
    println!("{}", map.to_string(&names).unwrap());
    assert_eq!(
        map.to_string(&names).unwrap(),
        "1-2-3 = 123\n1-2-4 = 124\n1-5-6 = 156\n1-5-7 = 157\n"
    );
    assert_eq!(TrieMultiMap::new().to_string(&names).unwrap(), "");
    let mut map = TrieMultiMap::new();
    let case = names.from_str("case").unwrap();
    let nom = names.from_str("nom").unwrap();
    map.insert(vec![(case, Some(nom)), label('x')], number(1));
    map.insert(Vec::new(), number(2));
    assert_eq!(map.to_string(&names).unwrap(), " = 2\ncase:nom-x = 1\n");
    map.insert(vec![(case + 1000, None)], number(1));
    assert_eq!(map.to_string(&names), None);
}

#[test]
fn a_tree_is_written_line_by_line() {
    let names = GlobalKey::new();
    let key = |w: &str| names.from_str(w).unwrap();
    let mut tree = TreeModel::init(bare(&names, &["S"]));
    assert_eq!(tree.to_string(&names).unwrap(), "[0] S\n");
    assert_eq!(
        tree.to_debug_string(&names).unwrap(),
        "[0] S <--UPPER_CURSOR| <--LOWER_CURSOR|(0 children)\n"
    );
    tree.receive(key("the")).unwrap();
    let the = LexiconNode::Lambda {
        from: Box::new(value(&names, &["N"])),
        to: bare(&names, &["S"]),
        project: true,
    };
    tree.decide(LexiconEntry::Lexical(the)).unwrap();
    assert_eq!(
        tree.to_string(&names).unwrap(),
        "[0] S\n    [2] S\n        [1] the\n        [\u{2605} 3] N\n"
    );
    assert_eq!(
        tree.to_debug_string(&names).unwrap(),
        [
            "[0] S(1 children)\n",
            "    [2] S(2 children)\n",
            "        [\u{2714}  1] the(0 children)\n",
            "        [\u{2605} 3] N <--UPPER_CURSOR| <--LOWER_CURSOR|(0 children)\n",
        ]
        .concat()
    );
    // a second token before the first is interpreted puts the first aside
    let mut tree = TreeModel::init(bare(&names, &["S"]));
    tree.receive(key("a")).unwrap();
    tree.receive(key("b")).unwrap();
    tree.decide(LexiconEntry::Lexical(LexiconNode::Moved { from: bare(&names, &["V"]) })).unwrap();
    assert_eq!(tree.to_string(&names).unwrap(), "[0] S\n    [3] --> [2] V\n        [2] b\n");
    assert_eq!(
        tree.to_debug_string(&names).unwrap(),
        [
            "[0] S <--UPPER_CURSOR|(1 children)\n",
            "    [3] --> [2] V <--LOWER_CURSOR|(1 children)\n",
            "        [\u{2714}  2] b(0 children)\n",
            "Unattached subtrees:\n",
            "[1] a(0 children)\n",
        ]
        .concat()
    );
    assert_eq!(TreeModel::new().to_string(&names).unwrap(), "");
    assert_eq!(TreeModel::new().to_debug_string(&names).unwrap(), "");
    let unnamed = TreeModel::init(FeatureSet::from_category(99999));
    assert_eq!(unnamed.to_string(&names), Err(Error::StdFmt));
    assert_eq!(unnamed.to_debug_string(&names), Err(Error::StdFmt));
    // what is no tree is not written to the end
    let mut tree = TreeModel::init(bare(&names, &["S"]));
    tree.set_relation_left(0, 0).unwrap();
    assert_eq!(tree.to_string(&names), Err(Error::NotATree(0)));
    assert_eq!(tree.to_debug_string(&names), Err(Error::NotATree(0)));
    tree.set_relation_right(0, 7).unwrap_err();
    assert_eq!(tree.to_debug_string(&names), Err(Error::NotATree(0)));
    let mut out = String::new();
    assert_eq!(tree.fmt_node_debug(&names, &mut out, 7, 0, 3), Err(Error::StdFmt));
}


#[test]
fn a_lexicon_is_written_tokens_first() {
    let names = GlobalKey::new();
    let mut lexicon = SimpleLexicon::new();
    assert_eq!(lexicon.to_string(&names).unwrap(), "Lexical entries:\nFunctional:\n");
    assert_eq!(lexicon.entries().len(), 0);
    let child = names.from_str("child").unwrap();
    lexicon.add_entry(
        SyntaxValue::Features(bare(&names, &["N", "Adj"])),
        LexiconNode::Lambda {
            from: Box::new(value(&names, &["N"])),
            to: bare(&names, &["N"]),
            project: true,
        },
    );
    lexicon.add_entry(SyntaxValue::Item(child), value(&names, &["N"]));
    assert_eq!(
        lexicon.to_string(&names).unwrap(),
        "Lexical entries:\n  child = N\nFunctional:\n  Adj--N = (N >> N)\n"
    );
    lexicon.add_entry(SyntaxValue::Item(child), value(&names, &["V"]));
    lexicon.add_entry(SyntaxValue::Item(child), value(&names, &["V"]));
    lexicon.add_entry(SyntaxValue::Features(bare(&names, &["N"])), value(&names, &["NP"]));
    let entries = lexicon.entries();
    assert_eq!(entries.len(), 4);
    for expected in [
        (SyntaxValue::Item(child), value(&names, &["N"])),
        (SyntaxValue::Item(child), value(&names, &["V"])),
        (SyntaxValue::Features(bare(&names, &["N"])), value(&names, &["NP"])),
    ] {
        assert_eq!(entries.iter().filter(|e| **e == expected).count(), 1);
    }
    let text = lexicon.to_string(&names).unwrap();
    assert_eq!(text, write_entries(&names, &entries).unwrap());
    let mut lines: Vec<&str> = text.lines().collect();
    assert_eq!(lines[0], "Lexical entries:");
    assert_eq!(lines[3], "Functional:");
    lines[1..3].sort();
    lines[4..6].sort();
    assert_eq!(
        lines,
        vec![
            "Lexical entries:",
            "  child = N",
            "  child = V",
            "Functional:",
            "  Adj--N = (N >> N)",
            "  N = NP",
        ]
    );
    lexicon.add_entry(SyntaxValue::Item(child + 100), value(&names, &["N"]));
    assert_eq!(lexicon.to_string(&names), None);
}

#[test]
fn entries_are_written_in_the_order_given() {
    let names = GlobalKey::new();
    let the = names.from_str("the").unwrap();
    let entries = vec![
        (SyntaxValue::Features(bare(&names, &["D"])), value(&names, &["DP"])),
        (SyntaxValue::Item(the), value(&names, &["D"])),
        (SyntaxValue::Features(bare(&names, &["C"])), LexiconNode::Moved { from: bare(&names, &["T"]) }),
        (SyntaxValue::Item(the), value(&names, &["D"])),
    ];
    assert_eq!(
        write_entries(&names, &entries).unwrap(),
        "Lexical entries:\n  the = D\n  the = D\nFunctional:\n  D = DP\n  C = MOVED(T)\n"
    );
}
