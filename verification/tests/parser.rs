use langbda::interner::Interner;
use langbda::lexicon::parser::{
    parse_feature, parse_feature_entries, parse_feature_set, parse_lambda, parse_moved,
    parse_sections, parse_syntax_node, parse_word, Error, FeatureTopology, LexiconSource, Notation,
    SubstitutionTable,
};
use langbda::lexicon::{Lexicon, LexiconEntry, LexiconNode, SimpleLexicon};
use langbda::syntax::{Feature, FeatureSet, Key, SyntaxValue};
use langbda::text::Text;
use lasso::{Key as _, Spur, ThreadedRodeo};

/// An interner that refuses the words that begin with a question mark.
struct Names(ThreadedRodeo);

impl Names {
    fn new() -> Names {
        Names(ThreadedRodeo::default())
    }

    fn key(&self, name: &str) -> Key {
        self.intern(name).unwrap()
    }
}

impl Interner for Names {
    fn key_of(&self, _: Text) -> Option<Key> {
        unreachable!()
    }

    fn name_of(&self, _: Key) -> Option<Text> {
        unreachable!()
    }

    fn intern(&self, name: &str) -> Option<Key> {
        if name.starts_with('?') {
            None
        } else {
            Some(self.0.get_or_intern(name).into_usize() as Key)
        }
    }

    fn resolve(&self, key: Key) -> Option<String> {
        let spur = Spur::try_from_usize(key as usize)?;
        self.0.try_resolve(&spur).map(|s| s.to_string())
    }
}

fn words(names: &[&str]) -> Vec<String> {
    names.iter().map(|w| w.to_string()).collect()
}

fn cannot_parse<T>(word: &str) -> Result<T, Error> {
    Err(Error::CannotParse(word.to_string()))
}

/// The topology of one category, number, with the values sg and pl.
fn topology(names: &Names) -> FeatureTopology {
    let mut ft = FeatureTopology::new();
    ft.insert(names.key("number"), names.key("sg"));
    ft.insert(names.key("number"), names.key("pl"));
    ft
}

fn set(names: &Names, pairs: &[(&str, Option<&str>)]) -> FeatureSet {
    let mut fs = FeatureSet::new();
    for (category, value) in pairs {
        fs.insert(names.key(category), value.map(|v| names.key(v)));
    }
    fs
}

fn sets(found: Vec<(FeatureSet, SubstitutionTable)>) -> Vec<FeatureSet> {
    found.into_iter().map(|(fs, _)| fs).collect()
}

fn nodes(found: Vec<(LexiconNode, SubstitutionTable)>) -> Vec<LexiconNode> {
    found.into_iter().map(|(node, _)| node).collect()
}

fn value(fs: FeatureSet) -> LexiconNode {
    LexiconNode::Value { value: SyntaxValue::Features(fs) }
}

#[test]
fn a_topology_knows_categories_and_values() {
    let names = Names::new();
    let mut ft = topology(&names);
    let (number, sg, pl) = (names.key("number"), names.key("sg"), names.key("pl"));
    assert!(ft.is_category(&number));
    assert!(!ft.is_category(&sg));
    assert_eq!(ft.get_from_category(&number), Some(&vec![sg, pl]));
    assert_eq!(ft.get_from_category(&sg), None);
    assert_eq!(ft.get_from_value(&sg), Some(number));
    assert_eq!(ft.get_from_value(&number), None);
    // a value is listed once, and belongs to the category it was given last
    ft.insert(number, sg);
    assert_eq!(ft.get_from_category(&number), Some(&vec![sg, pl]));
    let person = names.key("person");
    ft.insert(person, sg);
    assert_eq!(ft.get_from_value(&sg), Some(person));
    assert_eq!(ft.get_from_category(&number), Some(&vec![sg, pl]));
    assert!(!FeatureTopology::new().is_category(&number));
}

#[test]
fn a_word_is_a_marker_a_value_or_a_category() {
    let names = Names::new();
    let ft = topology(&names);
    let (number, sg, pl, n) =
        (names.key("number"), names.key("sg"), names.key("pl"), names.key("N"));
    let none = SubstitutionTable::new();
    let marker = parse_feature(&names, &"N".to_string(), &ft, none.clone()).unwrap();
    assert_eq!(marker, vec![((n, None), SubstitutionTable::from([(n, (n, None))]))]);
    let bound = parse_feature(&names, &"sg".to_string(), &ft, none.clone()).unwrap();
    assert_eq!(
        bound,
        vec![((number, Some(sg)), SubstitutionTable::from([(sg, (number, Some(sg)))]))]
    );
    let either = parse_feature(&names, &"number".to_string(), &ft, none.clone()).unwrap();
    assert_eq!(
        either,
        vec![
            ((number, Some(sg)), SubstitutionTable::from([(number, (number, Some(sg)))])),
            ((number, Some(pl)), SubstitutionTable::from([(number, (number, Some(pl)))])),
        ]
    );
    // a word read before stands for what it stood for
    let chosen = SubstitutionTable::from([(number, (number, Some(pl)))]);
    let again = parse_feature(&names, &"number".to_string(), &ft, chosen.clone()).unwrap();
    assert_eq!(again, vec![((number, Some(pl)), chosen)]);
    assert_eq!(parse_feature(&names, &"?".to_string(), &ft, none), cannot_parse("?"));
    assert_eq!(parse_word(&names, &"?x".to_string()), cannot_parse("?x"));
    assert_eq!(parse_word(&names, &"N".to_string()), Ok(n));
}

#[test]
fn a_category_in_a_feature_set_gives_one_reading_for_each_value() {
    let names = Names::new();
    let ft = topology(&names);
    let none = SubstitutionTable::new();
    let plain = parse_feature_set(&names, &words(&["N", "sg"]), &ft, none.clone()).unwrap();
    assert_eq!(sets(plain), vec![set(&names, &[("N", None), ("number", Some("sg"))])]);
    let open = parse_feature_set(&names, &words(&["N", "number"]), &ft, none.clone()).unwrap();
    assert_eq!(
        sets(open),
        vec![
            set(&names, &[("N", None), ("number", Some("sg"))]),
            set(&names, &[("N", None), ("number", Some("pl"))]),
        ]
    );
    // each word reverses the readings made so far
    let then = parse_feature_set(&names, &words(&["number", "N"]), &ft, none.clone()).unwrap();
    assert_eq!(
        sets(then),
        vec![
            set(&names, &[("N", None), ("number", Some("pl"))]),
            set(&names, &[("N", None), ("number", Some("sg"))]),
        ]
    );
    let empty = parse_feature_set(&names, &words(&[]), &ft, none.clone()).unwrap();
    assert_eq!(empty, vec![(FeatureSet::new(), none.clone())]);
    assert_eq!(parse_feature_set(&names, &words(&["N", "?", "sg"]), &ft, none), cannot_parse("?"));
}

#[test]
fn a_function_agrees_with_its_argument_on_a_category() {
    let names = Names::new();
    let ft = topology(&names);
    let none = SubstitutionTable::new();
    let from = Notation::FeatureSet(words(&["N", "number"]));
    let found = parse_lambda(&names, &from, &words(&["NP", "number"]), true, &ft, none.clone());
    let function = |number: &str| LexiconNode::Lambda {
        from: Box::new(value(set(&names, &[("N", None), ("number", Some(number))]))),
        to: set(&names, &[("NP", None), ("number", Some(number))]),
        project: true,
    };
    assert_eq!(nodes(found.unwrap()), vec![function("sg"), function("pl")]);
    let written = Notation::Lambda {
        from: Box::new(Notation::FeatureSet(words(&["N", "number"]))),
        to: words(&["NP", "number"]),
        project: true,
    };
    let found = parse_syntax_node(&names, &written, &ft, none.clone());
    assert_eq!(nodes(found.unwrap()), vec![function("sg"), function("pl")]);
    let moved = parse_moved(&names, &words(&["sg"]), &ft, none.clone());
    assert_eq!(
        nodes(moved.unwrap()),
        vec![LexiconNode::Moved { from: set(&names, &[("number", Some("sg"))]) }]
    );
    let moved = parse_syntax_node(&names, &Notation::Moved(words(&["N"])), &ft, none.clone());
    assert_eq!(nodes(moved.unwrap()), vec![LexiconNode::Moved { from: set(&names, &[("N", None)]) }]);
    let bad = Notation::Lambda {
        from: Box::new(Notation::FeatureSet(words(&["N"]))),
        to: words(&["?to"]),
        project: false,
    };
    assert_eq!(parse_syntax_node(&names, &bad, &ft, none), cannot_parse("?to"));
}

#[test]
fn a_source_is_read_section_by_section() {
    let names = Names::new();
    let source = LexiconSource {
        features: vec![("number".to_string(), words(&["sg", "pl"]))],
        functional: vec![(
            words(&["N", "number"]),
            Notation::FeatureSet(words(&["NP", "number"])),
        )],
        lexical: vec![
            ("child".to_string(), Notation::FeatureSet(words(&["N", "sg"]))),
            ("sheep".to_string(), Notation::FeatureSet(words(&["N", "number"]))),
        ],
    };
    let mut lexicon = SimpleLexicon::new();
    assert_eq!(parse_sections(&mut lexicon, &names, &source), Ok(()));
    let singular = set(&names, &[("N", None), ("number", Some("sg"))]);
    let plural = set(&names, &[("N", None), ("number", Some("pl"))]);
    assert_eq!(
        lexicon.get_entries(&SyntaxValue::Item(names.key("child"))),
        vec![LexiconEntry::Lexical(value(singular.clone()))]
    );
    let mut sheep = lexicon.get_entries(&SyntaxValue::Item(names.key("sheep")));
    sheep.sort_by_key(|e| *e != LexiconEntry::Lexical(value(singular.clone())));
    assert_eq!(
        sheep,
        vec![LexiconEntry::Lexical(value(singular.clone())), LexiconEntry::Lexical(value(plural.clone()))]
    );
    assert_eq!(
        lexicon.get_entries(&SyntaxValue::Features(plural)),
        vec![LexiconEntry::Functional {
            to: value(set(&names, &[("NP", None), ("number", Some("pl"))])),
            project: None
        }]
    );
    assert_eq!(
        lexicon.get_entries(&SyntaxValue::Features(singular)),
        vec![LexiconEntry::Functional {
            to: value(set(&names, &[("NP", None), ("number", Some("sg"))])),
            project: None
        }]
    );
}

#[test]
fn reading_ends_at_the_first_word_that_cannot_be_read() {
    let names = Names::new();
    let source = LexiconSource {
        features: vec![],
        functional: vec![],
        lexical: vec![
            ("child".to_string(), Notation::FeatureSet(words(&["N"]))),
            ("?".to_string(), Notation::FeatureSet(words(&["N"]))),
            ("apple".to_string(), Notation::FeatureSet(words(&["N"]))),
        ],
    };
    let mut lexicon = SimpleLexicon::new();
    assert_eq!(parse_sections(&mut lexicon, &names, &source), cannot_parse("?"));
    assert_eq!(lexicon.get_entries(&SyntaxValue::Item(names.key("child"))).len(), 1);
    assert_eq!(lexicon.get_entries(&SyntaxValue::Item(names.key("apple"))).len(), 0);
    assert_eq!(
        Error::CannotParse("?".to_string()).to_string(),
        "FromStr: Cannot parse ?"
    );
    let mut ft = FeatureTopology::new();
    let features = vec![("case".to_string(), words(&["nom", "?acc", "gen"]))];
    assert_eq!(parse_feature_entries(&mut ft, &names, &features), cannot_parse("?acc"));
    assert_eq!(ft.get_from_category(&names.key("case")), Some(&vec![names.key("nom")]));
    let features = vec![("?case".to_string(), words(&["nom"]))];
    assert_eq!(parse_feature_entries(&mut ft, &names, &features), cannot_parse("?case"));
}

#[test]
fn a_topology_says_what_a_word_stands_for() {
    let names = Names::new();
    let ft = topology(&names);
    let (number, sg, n) = (names.key("number"), names.key("sg"), names.key("N"));
    assert_eq!(ft.to_feature(sg), Feature::new_both(number, sg));
    assert_eq!(ft.to_feature(number), Feature::new_category(number));
    assert_eq!(ft.to_feature(n), Feature::new_value(n));
}
