use langbda::cognitive::{CognitiveModel, LambdaModel, TreeModel};
use langbda::dialect::Dialect;
use langbda::interner::Interner;
use langbda::interpreter::{
    follow, follow_key, interpret, same_derivation, step, Action, Error,
};
use langbda::lexicon::{Lexicon, LexiconEntry, LexiconNode, SimpleLexicon};
use langbda::syntax::{FeatureSet, Key, SyntaxValue};
use langbda::text::Text;
use langbda::tokenizer::{SimpleTokenizer, Tokenizer};
use lasso::{Key as _, Spur, ThreadedRodeo};
use std::sync::Arc;

/// An interner shared by all that make keys. The empty name has no key.
#[derive(Clone)]
struct Names(Arc<ThreadedRodeo>);

impl Interner for Names {
    fn key_of(&self, _: Text) -> Option<Key> {
        unreachable!()
    }

    fn name_of(&self, _: Key) -> Option<Text> {
        unreachable!()
    }

    fn intern(&self, name: &str) -> Option<Key> {
        if name.is_empty() {
            None
        } else {
            Some(self.0.get_or_intern(name).into_usize() as Key)
        }
    }

    fn resolve(&self, key: Key) -> Option<String> {
        let spur = Spur::try_from_usize(key as usize)?;
        self.0.try_resolve(&spur).map(|s| s.to_string())
    }
}

struct Toy {
    names: Names,
    lexicon: SimpleLexicon,
    tokenizer: SimpleTokenizer<Names>,
}

impl Toy {
    fn new() -> Toy {
        let names = Names(Arc::new(ThreadedRodeo::default()));
        Toy {
            names: names.clone(),
            lexicon: SimpleLexicon::new(),
            tokenizer: SimpleTokenizer::new(names),
        }
    }

    fn key(&self, name: &str) -> Key {
        self.names.intern(name).unwrap()
    }

    fn features(&self, names: &[&str]) -> FeatureSet {
        let mut fs = FeatureSet::new();
        for name in names {
            fs.insert(self.key(name), None);
        }
        fs
    }

    fn value(&self, names: &[&str]) -> LexiconNode {
        LexiconNode::Value { value: SyntaxValue::Features(self.features(names)) }
    }

    fn lexical(&mut self, word: &str, names: &[&str]) {
        let entry = self.value(names);
        assert!(self.lexicon.add_entry(SyntaxValue::Item(self.key(word)), entry));
    }

    fn functional(&mut self, trigger: &[&str], to: LexiconNode) {
        assert!(self.lexicon.add_entry(SyntaxValue::Features(self.features(trigger)), to));
    }
}

impl Dialect for Toy {
    type Lexicon = SimpleLexicon;
    type Tokenizer = SimpleTokenizer<Names>;
    type Interner = Names;

    fn lexicon_spec(&self) -> &SimpleLexicon {
        unreachable!()
    }

    fn tokenizer_spec(&self) -> &SimpleTokenizer<Names> {
        unreachable!()
    }

    fn interner_spec(&self) -> &Names {
        unreachable!()
    }

    fn name_spec(&self) -> Text {
        unreachable!()
    }

    fn name(&self) -> &str {
        "Toy"
    }

    fn interner(&self) -> &Names {
        &self.names
    }

    fn lexicon(&self) -> &SimpleLexicon {
        &self.lexicon
    }

    fn tokenizer(&self) -> &SimpleTokenizer<Names> {
        &self.tokenizer
    }
}

/// A model that takes every token and wants nothing interpreted.
#[derive(Clone, Debug)]
struct NaiveModel {}

impl CognitiveModel for NaiveModel {
    fn init_spec(_: langbda::syntax::Features) -> () {
        unreachable!()
    }

    fn understood_spec(_: ()) -> bool {
        unreachable!()
    }

    fn demand_spec(_: ()) -> bool {
        unreachable!()
    }

    fn receive_spec(_: (), _: Key) -> ((), Result<(), langbda::cognitive::Error>) {
        unreachable!()
    }

    fn wonder_spec(_: ()) -> Option<langbda::syntax::SyntaxValueView> {
        unreachable!()
    }

    fn decide_spec(
        _: (),
        _: langbda::lexicon::LexiconEntryView,
    ) -> ((), Result<(), langbda::cognitive::Error>) {
        unreachable!()
    }

    fn init(_: FeatureSet) -> Self {
        NaiveModel {}
    }

    fn understood(&self) -> bool {
        true
    }

    fn demand(&self) -> bool {
        true
    }

    fn receive(&mut self, _: Key) -> Result<(), langbda::cognitive::Error> {
        Ok(())
    }

    fn wonder(&self) -> Option<&SyntaxValue> {
        None
    }

    fn decide(&mut self, _: LexiconEntry) -> Result<(), langbda::cognitive::Error> {
        Ok(())
    }

    fn fork(&self) -> Self {
        self.clone()
    }
}

impl vstd::view::View for NaiveModel {
    type V = ();

    fn view(&self) -> () {
        unreachable!()
    }
}

#[test]
fn test_cogmodel() {
    let dialect = Toy::new();
    let res = interpret::<_, NaiveModel>(&dialect, "Hello, world!", "S", 10).unwrap();
    let shouldbe = vec![["Hello", ",", "world", "!"]
        .map(|s| Action::AddToken(dialect.key(s)))
        .into_iter()
        .collect::<Vec<_>>()];
    assert_eq!(res, shouldbe);
}

#[test]
fn a_single_word_of_the_target_category() {
    let mut toy = Toy::new();
    toy.lexical("ok", &["S"]);
    let found = interpret::<Toy, LambdaModel>(&toy, "ok", "S", 10).unwrap();
    assert_eq!(
        found,
        vec![vec![
            Action::AddToken(toy.key("ok")),
            Action::ApplyEntry(LexiconEntry::Lexical(toy.value(&["S"]))),
        ]]
    );
    let model: LambdaModel = follow(&toy.names, "S", found[0].clone()).unwrap();
    assert!(model.understood());
    let tree: TreeModel = follow(&toy.names, "S", found[0].clone()).unwrap();
    assert!(tree.understood());
    assert_eq!(interpret::<Toy, TreeModel>(&toy, "ok", "S", 2).unwrap(), found);
}

#[test]
fn a_rule_leads_from_the_word_to_the_target() {
    let mut toy = Toy::new();
    toy.lexical("go", &["V"]);
    toy.functional(&["V"], toy.value(&["S"]));
    let go = Action::AddToken(toy.key("go"));
    let verb = Action::ApplyEntry(LexiconEntry::Lexical(toy.value(&["V"])));
    let rule =
        Action::ApplyEntry(LexiconEntry::Functional { to: toy.value(&["S"]), project: None });
    let s = toy.key("S");

    let open: LambdaModel = follow_key(s, vec![go.clone(), verb.clone()]).unwrap();
    assert!(!open.understood());
    assert_eq!(open.wonder(), Some(&SyntaxValue::Features(toy.features(&["V"]))));
    let closed: LambdaModel = follow_key(s, vec![go.clone(), verb.clone(), rule.clone()]).unwrap();
    assert!(closed.understood());

    let found = interpret::<Toy, LambdaModel>(&toy, "go", "S", 10).unwrap();
    assert_eq!(found, vec![vec![go.clone(), verb.clone(), rule.clone()]]);
    let tree: TreeModel = follow_key(s, found[0].clone()).unwrap();
    assert!(tree.understood());
    let open: TreeModel = follow_key(s, vec![go, verb]).unwrap();
    assert!(!open.understood());
}

#[test]
fn no_derivation_is_no_error() {
    let toy = Toy::new();
    assert_eq!(interpret::<Toy, LambdaModel>(&toy, "zzz", "S", 10), Ok(Vec::new()));
    assert_eq!(interpret::<Toy, TreeModel>(&toy, "zzz", "S", 4), Ok(Vec::new()));
    let mut toy = Toy::new();
    toy.lexical("ok", &["S"]);
    assert_eq!(interpret::<Toy, LambdaModel>(&toy, "zzz", "S", 10), Ok(Vec::new()));
    assert_eq!(interpret::<Toy, LambdaModel>(&toy, "ok ok", "S", 10), Ok(Vec::new()));
    assert_eq!(interpret::<Toy, LambdaModel>(&toy, "", "S", 10), Ok(Vec::new()));
}

#[test]
fn a_target_without_a_name_is_an_error() {
    let toy = Toy::new();
    assert_eq!(interpret::<Toy, LambdaModel>(&toy, "ok", "", 10), Err(Error::FromStr));
    let r: Result<LambdaModel, Error> = follow(&toy.names, "", Vec::new());
    assert_eq!(r.err(), Some(Error::FromStr));
}

#[test]
fn the_limit_bounds_the_length_of_a_derivation() {
    let mut toy = Toy::new();
    toy.lexical("go", &["V"]);
    toy.functional(&["V"], toy.value(&["S"]));
    assert_eq!(interpret::<Toy, LambdaModel>(&toy, "go", "S", 2), Ok(Vec::new()));
    assert_eq!(interpret::<Toy, LambdaModel>(&toy, "go", "S", 3).unwrap().len(), 1);
    assert_eq!(interpret::<Toy, LambdaModel>(&toy, "go", "S", 0), Ok(Vec::new()));
}

#[test]
fn every_reading_of_an_ambiguous_word_is_found() {
    let mut toy = Toy::new();
    toy.lexical("ok", &["S"]);
    toy.lexical("ok", &["V"]);
    toy.functional(&["V"], toy.value(&["S"]));
    let found = interpret::<Toy, LambdaModel>(&toy, " ok ", "S", 10).unwrap();
    // "ok " leaves a blank that no token can be made of: nothing is found
    assert_eq!(found, Vec::<Vec<Action>>::new());
    let mut found = interpret::<Toy, LambdaModel>(&toy, " ok", "S", 10).unwrap();
    found.sort_by_key(|actions| actions.len());
    assert_eq!(found.len(), 2);
    assert_eq!(found[0].len(), 2);
    assert_eq!(found[1].len(), 3);
    for actions in found {
        let model: LambdaModel = follow(&toy.names, "S", actions.clone()).unwrap();
        assert!(model.understood());
        let tree: TreeModel = follow(&toy.names, "S", actions).unwrap();
        assert!(tree.understood());
    }
}

#[test]
fn a_function_word_takes_its_argument() {
    // "the" makes a noun phrase of the noun that follows it
    let mut toy = Toy::new();
    let the = LexiconNode::Lambda {
        from: Box::new(toy.value(&["N"])),
        to: toy.features(&["NP"]),
        project: false,
    };
    assert!(toy.lexicon.add_entry(SyntaxValue::Item(toy.key("the")), the.clone()));
    toy.lexical("child", &["N"]);
    let found = interpret::<Toy, LambdaModel>(&toy, "the child", "NP", 10).unwrap();
    assert_eq!(
        found,
        vec![vec![
            Action::AddToken(toy.key("the")),
            Action::ApplyEntry(LexiconEntry::Lexical(the)),
            Action::AddToken(toy.key("child")),
            Action::ApplyEntry(LexiconEntry::Lexical(toy.value(&["N"]))),
        ]]
    );
    let model: LambdaModel = follow(&toy.names, "NP", found[0].clone()).unwrap();
    assert!(model.understood());
    let tree: Result<TreeModel, Error> = follow(&toy.names, "NP", found[0].clone());
    assert!(tree.unwrap().understood());
}

#[test]
fn a_replay_stops_at_the_first_action_that_fails() {
    let toy = Toy::new();
    let s = toy.key("S");
    let entry = Action::ApplyEntry(LexiconEntry::Lexical(toy.value(&["S"])));
    let r: Result<LambdaModel, Error> = follow_key(s, vec![entry.clone()]);
    assert_eq!(
        r.err(),
        Some(Error::Cognitive(langbda::cognitive::Error::LambdaModel(
            langbda::cognitive::lambda::Error::ApplyEntryToNonLambda
        )))
    );
    let r: Result<TreeModel, Error> = follow_key(s, vec![entry]);
    assert_eq!(
        r.err(),
        Some(Error::Cognitive(langbda::cognitive::Error::TreeModel(
            langbda::cognitive::tree::Error::NodeHasNoParent(0)
        )))
    );
}

#[test]
fn the_interner_gives_names_back() {
    let toy = Toy::new();
    let k = toy.key("apple");
    assert_eq!(toy.names.resolve(k), Some("apple".to_string()));
    assert_eq!(toy.key("apple"), k);
    assert_eq!(toy.names.resolve(k + 1), None);
}

#[test]
fn the_tokenizer_offers_the_next_word() {
    let toy = Toy::new();
    assert_eq!(toy.tokenizer.tokenize("hello world"), vec![(toy.key("hello"), " world")]);
    assert_eq!(toy.tokenizer.tokenize("  "), Vec::new());
    assert_eq!(toy.dialect_name(), "Toy");
}

impl Toy {
    fn dialect_name(&self) -> String {
        self.name().to_string()
    }
}

#[test]
fn a_function_word_may_follow_its_argument() {
    let mut toy = Toy::new();
    let ate = LexiconNode::Lambda {
        from: Box::new(toy.value(&["N"])),
        to: toy.features(&["S"]),
        project: false,
    };
    toy.lexical("child", &["N"]);
    assert!(toy.lexicon.add_entry(SyntaxValue::Item(toy.key("ate")), ate.clone()));
    toy.functional(&["N"], toy.value(&["N"]));
    // the rule from N to N applies over and over: the limit ends it
    assert!(interpret::<Toy, LambdaModel>(&toy, "child ate", "S", 8).unwrap().len() > 2);
    let mut found = interpret::<Toy, LambdaModel>(&toy, "child ate", "S", 5).unwrap();
    found.sort_by_key(|actions| actions.len());
    let child = Action::AddToken(toy.key("child"));
    let noun = Action::ApplyEntry(LexiconEntry::Lexical(toy.value(&["N"])));
    let verb = Action::AddToken(toy.key("ate"));
    let takes = Action::ApplyEntry(LexiconEntry::Lexical(ate));
    let same = Action::ApplyEntry(LexiconEntry::Functional { to: toy.value(&["N"]), project: None });
    assert_eq!(
        found,
        vec![
            vec![child.clone(), verb.clone(), takes.clone(), noun.clone()],
            vec![child.clone(), noun.clone(), verb.clone(), takes.clone(), same.clone()],
        ]
    );
    for actions in found.iter() {
        let model: LambdaModel = follow(&toy.names, "S", actions.clone()).unwrap();
        assert!(model.understood());
    }
    // the derivation tree does not follow the frontier model here
    let first: Result<TreeModel, Error> = follow(&toy.names, "S", found[0].clone());
    assert_eq!(
        first.err(),
        Some(Error::Cognitive(langbda::cognitive::Error::TreeModel(
            langbda::cognitive::tree::Error::NodeIsNotFeatures(1)
        )))
    );
    let second: Result<TreeModel, Error> = follow(&toy.names, "S", found[1].clone());
    assert_eq!(
        second.err(),
        Some(Error::Cognitive(langbda::cognitive::Error::TreeModel(
            langbda::cognitive::tree::Error::NodeHasNoParent(0)
        )))
    );
}

/// A tokenizer that offers every candidate twice.
struct Twice(SimpleTokenizer<Names>);

impl Tokenizer for Twice {
    fn offers(&self, _: Text, _: Key, _: Text) -> bool {
        unreachable!()
    }

    fn tokenize<'a>(&self, input: &'a str) -> Vec<(Key, &'a str)> {
        let once = self.0.tokenize(input);
        once.iter().chain(once.iter()).copied().collect()
    }
}

#[test]
fn a_derivation_is_found_once_whatever_the_tokenizer_repeats() {
    let mut toy = Toy::new();
    toy.lexical("ok", &["S"]);
    let twice = Twice(SimpleTokenizer::new(toy.names.clone()));
    assert_eq!(twice.tokenize("ok").len(), 2);
    let mut found = Vec::new();
    let mut actions = Vec::new();
    let model = LambdaModel::init(toy.features(&["S"]));
    step(&toy.lexicon, &twice, &mut found, &mut actions, model, "ok", 10);
    assert_eq!(actions, Vec::new());
    assert_eq!(
        found,
        vec![vec![
            Action::AddToken(toy.key("ok")),
            Action::ApplyEntry(LexiconEntry::Lexical(toy.value(&["S"]))),
        ]]
    );
    // what the list holds before the search stays, and is not found again
    let model = LambdaModel::init(toy.features(&["S"]));
    step(&toy.lexicon, &toy.tokenizer, &mut found, &mut actions, model, "ok", 10);
    assert_eq!(found.len(), 1);
}

#[test]
fn derivations_compare_by_content() {
    let toy = Toy::new();
    let add = |word: &str| Action::AddToken(toy.key(word));
    let apply = |names: &[&str]| Action::ApplyEntry(LexiconEntry::Lexical(toy.value(names)));
    assert!(add("a").equals(&add("a")));
    assert!(!add("a").equals(&add("b")));
    assert!(apply(&["S"]).equals(&apply(&["S"])));
    assert!(!apply(&["S"]).equals(&apply(&["N"])));
    assert!(!apply(&["S"]).equals(&add("S")));
    assert!(same_derivation(&vec![], &vec![]));
    assert!(same_derivation(&vec![add("a"), apply(&["S"])], &vec![add("a"), apply(&["S"])]));
    assert!(!same_derivation(&vec![add("a"), apply(&["S"])], &vec![add("a")]));
    assert!(!same_derivation(&vec![add("a"), apply(&["S"])], &vec![add("a"), apply(&["N"])]));
    assert!(!same_derivation(&vec![add("a")], &vec![]));
}
