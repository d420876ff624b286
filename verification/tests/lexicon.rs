use langbda::lexicon::{Lexicon, LexiconEntry, LexiconNode, SimpleLexicon};
use langbda::syntax::{FeatureSet, Key, SyntaxValue};
use lasso::{Key as _, Rodeo};
use std::collections::HashSet;

fn key(rodeo: &mut Rodeo, name: &str) -> Key {
    rodeo.get_or_intern(name).into_usize() as Key
}

fn bare(keys: &[Key]) -> FeatureSet {
    let mut fs = FeatureSet::new();
    for k in keys {
        fs.insert(*k, None);
    }
    fs
}

fn node(keys: &[Key]) -> LexiconNode {
    LexiconNode::Value { value: SyntaxValue::Features(bare(keys)) }
}

fn set(entries: Vec<LexiconEntry>) -> HashSet<LexiconEntry> {
    let n = entries.len();
    let set: HashSet<LexiconEntry> = entries.into_iter().collect();
    assert_eq!(set.len(), n);
    set
}

#[test]
fn test_lexicon() {
    let mut rodeo = Rodeo::default();
    let (ka, kb, kc) = (key(&mut rodeo, "a"), key(&mut rodeo, "b"), key(&mut rodeo, "c"));
    let mut lexicon = SimpleLexicon::new();
    let a = SyntaxValue::Item(ka);
    let b = SyntaxValue::Item(kb);
    let c = SyntaxValue::Item(kc);
    let mut ab = FeatureSet::new();
    ab.insert(ka, None);
    ab.insert(kb, None);
    let ab = LexiconNode::Value { value: SyntaxValue::Features(ab) };
    let mut abc = FeatureSet::new();
    abc.insert(ka, None);
    abc.insert(kb, None);
    abc.insert(kc, None);
    let abc = LexiconNode::Value { value: SyntaxValue::Features(abc) };
    lexicon.add_entry(a.clone(), ab.clone());
    lexicon.add_entry(b.clone(), ab.clone());
    lexicon.add_entry(a.clone(), abc.clone());
    lexicon.add_entry(b.clone(), abc.clone());
    lexicon.add_entry(c.clone(), abc.clone());
    assert_eq!(
        set(lexicon.get_entries(&SyntaxValue::Item(ka))),
        [LexiconEntry::Lexical(ab.clone()), LexiconEntry::Lexical(abc.clone())]
            .into_iter()
            .collect()
    );
    assert_eq!(
        set(lexicon.get_entries(&SyntaxValue::Item(kb))),
        [LexiconEntry::Lexical(ab.clone()), LexiconEntry::Lexical(abc.clone())]
            .into_iter()
            .collect()
    );
    assert_eq!(
        set(lexicon.get_entries(&SyntaxValue::Item(kc))),
        [LexiconEntry::Lexical(abc.clone())].into_iter().collect()
    );
}

#[test]
fn add_entry_says_whether_the_entry_is_new() {
    let mut lexicon = SimpleLexicon::new();
    assert!(lexicon.add_entry(SyntaxValue::Item(1), node(&[2])));
    assert!(!lexicon.add_entry(SyntaxValue::Item(1), node(&[2])));
    assert!(lexicon.add_entry(SyntaxValue::Item(1), node(&[3])));
    assert!(lexicon.add_entry(SyntaxValue::Features(bare(&[1])), node(&[2])));
    assert!(!lexicon.add_entry(SyntaxValue::Features(bare(&[1])), node(&[2])));
    assert!(lexicon.add_entry(SyntaxValue::Features(bare(&[1, 4])), node(&[2])));
    assert_eq!(set(lexicon.get_entries(&SyntaxValue::Item(9))), HashSet::new());
}

#[test]
fn a_query_finds_the_triggers_that_are_its_subsets() {
    let (x, y, z) = (1, 2, 3);
    let n1 = node(&[11]);
    let n2 = node(&[12]);
    let mut lexicon = SimpleLexicon::new();
    lexicon.add_entry(SyntaxValue::Features(bare(&[x, y])), n1.clone());
    lexicon.add_entry(SyntaxValue::Features(bare(&[x, z])), n2.clone());

    let both = set(lexicon.get_entries(&SyntaxValue::Features(bare(&[x, y, z]))));
    assert_eq!(
        both,
        [
            LexiconEntry::Functional { to: n1.clone(), project: Some(bare(&[z])) },
            LexiconEntry::Functional { to: n2.clone(), project: Some(bare(&[y])) },
        ]
        .into_iter()
        .collect()
    );
    assert_eq!(set(lexicon.get_entries(&SyntaxValue::Features(bare(&[x])))), HashSet::new());
    assert_eq!(set(lexicon.get_entries(&SyntaxValue::Features(bare(&[y, z])))), HashSet::new());
}

#[test]
fn an_exact_match_leaves_nothing_to_project() {
    let mut lexicon = SimpleLexicon::new();
    let n = node(&[7]);
    lexicon.add_entry(SyntaxValue::Features(bare(&[1, 2])), n.clone());
    assert_eq!(
        lexicon.get_entries(&SyntaxValue::Features(bare(&[1, 2]))),
        vec![LexiconEntry::Functional { to: n, project: None }]
    );
}

#[test]
fn a_trigger_must_agree_on_the_values() {
    let mut trigger = FeatureSet::new();
    trigger.insert(1, Some(10));
    let mut lexicon = SimpleLexicon::new();
    lexicon.add_entry(SyntaxValue::Features(trigger), node(&[7]));
    let mut query = FeatureSet::new();
    query.insert(1, Some(11));
    query.insert(2, None);
    assert_eq!(lexicon.get_entries(&SyntaxValue::Features(query.clone())), Vec::new());
    query.insert(1, Some(10));
    assert_eq!(
        lexicon.get_entries(&SyntaxValue::Features(query)),
        vec![LexiconEntry::Functional { to: node(&[7]), project: Some(bare(&[2])) }]
    );
}

#[test]
fn the_empty_trigger_never_fires() {
    let mut lexicon = SimpleLexicon::new();
    assert!(lexicon.add_entry(SyntaxValue::Features(FeatureSet::new()), node(&[7])));
    assert_eq!(lexicon.get_entries(&SyntaxValue::Features(bare(&[1]))), Vec::new());
    assert_eq!(lexicon.get_entries(&SyntaxValue::Features(FeatureSet::new())), Vec::new());
}

#[test]
fn nodes_and_entries_compare_by_content() {
    let lambda = LexiconNode::Lambda { from: Box::new(node(&[1])), to: bare(&[2]), project: true };
    assert!(lambda.equals(&lambda.clone()));
    assert!(!lambda.equals(&LexiconNode::Lambda {
        from: Box::new(node(&[1])),
        to: bare(&[2]),
        project: false
    }));
    assert!(!lambda.equals(&node(&[1])));
    let moved = LexiconNode::Moved { from: bare(&[1]) };
    assert!(moved.equals(&moved.clone()));
    assert!(!moved.equals(&node(&[1])));
    let lexical = LexiconEntry::Lexical(moved.clone());
    let functional = LexiconEntry::Functional { to: moved.clone(), project: None };
    assert!(lexical.equals(&lexical.clone()));
    assert!(!lexical.equals(&functional));
    assert!(!functional.equals(&LexiconEntry::Functional { to: moved, project: Some(bare(&[])) }));
}
