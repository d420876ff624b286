use langbda::lexicon::LexiconNode;
use langbda::syntax::{Key, SyntaxValue};
use langbda::trie::{Label, TrieMultiMap};
use lasso::{Key as _, Rodeo};

fn label(rodeo: &mut Rodeo, name: &str) -> Label {
    (rodeo.get_or_intern(name).into_usize() as Key, None)
}

fn labels(rodeo: &mut Rodeo, names: &[&str]) -> Vec<Label> {
    names.iter().map(|name| label(rodeo, name)).collect()
}

fn char_labels(names: &[char]) -> Vec<Label> {
    names.iter().map(|c| (*c as Key, None)).collect()
}

fn value(n: Key) -> LexiconNode {
    LexiconNode::Value { value: SyntaxValue::Item(n) }
}

fn child(map: &TrieMultiMap, node: usize, at: Label) -> usize {
    map.get_node(node).unwrap().find_child(&at).unwrap()
}

#[test]
fn test_insert_child() {
    let mut rodeo = Rodeo::default();
    let mut map = TrieMultiMap::new();
    map.insert(labels(&mut rodeo, &["1", "2", "3"]), value(123));
    map.insert(labels(&mut rodeo, &["1", "2", "4"]), value(124));
    map.insert(labels(&mut rodeo, &["1", "5", "6"]), value(156));
    assert_eq!(map.get_node(0).unwrap().children.len(), 1);
    let n1 = child(&map, 0, label(&mut rodeo, "1"));
    assert_eq!(map.get_node(n1).unwrap().children.len(), 2);
    let n12 = child(&map, n1, label(&mut rodeo, "2"));
    assert_eq!(map.get_node(n12).unwrap().children.len(), 2);
    let n123 = child(&map, n12, label(&mut rodeo, "3"));
    assert_eq!(map.get_node(n123).unwrap().values, vec![value(123)]);
    let n124 = child(&map, n12, label(&mut rodeo, "4"));
    assert_eq!(map.get_node(n124).unwrap().values, vec![value(124)]);
    let n15 = child(&map, n1, label(&mut rodeo, "5"));
    let n156 = child(&map, n15, label(&mut rodeo, "6"));
    assert_eq!(map.get_node(n156).unwrap().values, vec![value(156)]);
}

#[test]
fn test_get_subsets() {
    let mut rodeo = Rodeo::default();
    let mut map = TrieMultiMap::new();
    map.insert(labels(&mut rodeo, &["1", "2", "3"]), value(123));
    map.insert(labels(&mut rodeo, &["1", "2", "4"]), value(124));
    map.insert(labels(&mut rodeo, &["1", "5", "6"]), value(156));

    let keys = labels(&mut rodeo, &["1", "2"]);
    let results = map.get_subsets(&keys);
    assert_eq!(results, Vec::new());

    let keys = labels(&mut rodeo, &["1", "2", "3", "4", "5", "6"]);
    let results = map.get_subsets(&keys);
    assert_eq!(
        results,
        Vec::from([
            (labels(&mut rodeo, &["1", "2", "3"]), value(123)),
            (labels(&mut rodeo, &["1", "2", "4"]), value(124)),
            (labels(&mut rodeo, &["1", "5", "6"]), value(156))
        ])
    );
}

#[test]
fn node_test_get_subsets() {
    let mut rodeo = Rodeo::default();
    let mut map = TrieMultiMap::new();
    map.insert(labels(&mut rodeo, &["1", "2", "3"]), value(123));
    map.insert(labels(&mut rodeo, &["1", "2", "4"]), value(124));
    map.insert(labels(&mut rodeo, &["1", "5", "6"]), value(156));

    let keys = labels(&mut rodeo, &["1", "2"]);
    let results = map.get_subsets(&keys);
    assert_eq!(results, Vec::new());

    let keys = labels(&mut rodeo, &["1", "2", "3", "4", "5", "6"]);
    let results = map.get_subsets(&keys);
    assert_eq!(
        results,
        Vec::from([
            (labels(&mut rodeo, &["1", "2", "3"]), value(123)),
            (labels(&mut rodeo, &["1", "2", "4"]), value(124)),
            (labels(&mut rodeo, &["1", "5", "6"]), value(156))
        ])
    );
}

#[test]
fn trie_multimap_test_get_subsets() {
    let mut map = TrieMultiMap::new();
    map.insert(char_labels(&['1', '2', '3']), value(123));
    map.insert(char_labels(&['1', '2', '4']), value(124));
    map.insert(char_labels(&['1', '5', '6']), value(156));
    map.insert(char_labels(&['1', '5', '7']), value(157));

    let subsets = map.get_subsets(&char_labels(&['1', '2', '3', '5', '6']));
    assert_eq!(
        subsets,
        Vec::from([
            (char_labels(&['1', '2', '3']), value(123)),
            (char_labels(&['1', '5', '6']), value(156))
        ])
    );
}

#[test]
fn insert_says_whether_the_value_is_new() {
    let mut map = TrieMultiMap::new();
    assert_eq!(map.size(), 1);
    assert!(map.insert(char_labels(&['a', 'b']), value(1)));
    assert!(!map.insert(char_labels(&['a', 'b']), value(1)));
    assert!(map.insert(char_labels(&['a', 'b']), value(2)));
    assert!(map.insert(char_labels(&['a']), value(1)));
    assert!(map.insert(Vec::new(), value(1)));
    assert_eq!(map.size(), 3);
    assert!(map.get_node(3).is_none());
    let mut all = map.iter();
    all.sort_by_key(|(path, _)| path.len());
    assert_eq!(
        all,
        vec![
            (Vec::new(), value(1)),
            (char_labels(&['a']), value(1)),
            (char_labels(&['a', 'b']), value(1)),
            (char_labels(&['a', 'b']), value(2)),
        ]
    );
}

#[test]
fn what_is_stored_under_the_empty_path_is_never_found() {
    let mut map = TrieMultiMap::new();
    map.insert(Vec::new(), value(1));
    assert_eq!(map.get_subsets(&char_labels(&['a', 'b'])), Vec::new());
    assert_eq!(map.get_subsets(&Vec::new()), Vec::new());
}

#[test]
fn a_path_is_found_only_in_the_order_of_the_query() {
    let mut map = TrieMultiMap::new();
    map.insert(char_labels(&['b', 'a']), value(1));
    map.insert(char_labels(&['a', 'c']), value(2));
    assert_eq!(
        map.get_subsets(&char_labels(&['a', 'b', 'c'])),
        vec![(char_labels(&['a', 'c']), value(2))]
    );
    assert_eq!(
        map.get_subsets(&char_labels(&['b', 'c', 'a'])),
        vec![(char_labels(&['b', 'a']), value(1))]
    );
}

#[test]
fn a_label_read_twice_finds_its_values_twice() {
    let mut map = TrieMultiMap::new();
    map.insert(char_labels(&['a']), value(1));
    map.insert(char_labels(&['a', 'b']), value(2));
    let once = map.get_subsets(&char_labels(&['a', 'b']));
    assert_eq!(once, vec![(char_labels(&['a']), value(1)), (char_labels(&['a', 'b']), value(2))]);
    let twice = map.get_subsets(&char_labels(&['a', 'a']));
    assert_eq!(twice, vec![(char_labels(&['a']), value(1)), (char_labels(&['a']), value(1))]);
}

#[test]
fn the_values_are_listed_record_by_record() {
    let mut map = TrieMultiMap::new();
    assert_eq!(map.iter(), Vec::new());
    map.insert(char_labels(&['1', '2']), value(12));
    map.insert(char_labels(&['1']), value(1));
    map.insert(char_labels(&['1', '2']), value(120));
    map.insert(char_labels(&['1', '2']), value(12));
    map.insert(char_labels(&['0']), value(0));
    assert_eq!(
        map.iter(),
        vec![
            (char_labels(&['1']), value(1)),
            (char_labels(&['1', '2']), value(12)),
            (char_labels(&['1', '2']), value(120)),
            (char_labels(&['0']), value(0)),
        ]
    );
    assert_eq!(map.size(), 4);
    assert_eq!(map.get_node(0).unwrap().find_child(&char_labels(&['0'])[0]), Some(3));
    assert_eq!(map.get_node(0).unwrap().find_child(&char_labels(&['2'])[0]), None);
}
