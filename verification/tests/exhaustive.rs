use langbda::cognitive::{CognitiveModel, LambdaModel};
use langbda::dialect::Dialect;
use langbda::interner::Interner;
use langbda::interpreter::{follow, interpret, Action};
use langbda::lexicon::{Lexicon, LexiconEntry, LexiconNode, SimpleLexicon};
use langbda::syntax::{Error, FeatureSet, Key, SyntaxValue};
use langbda::text::Text;
use langbda::tokenizer::SimpleTokenizer;
use langbda::trie::{Label, TrieMultiMap};
use std::collections::{BTreeMap, BTreeSet};

/// Numbers that look random, the same at every run.
struct Dice(u64);

impl Dice {
    fn roll(&mut self, sides: u64) -> u64 {
        self.0 = self.0.wrapping_mul(6364136223846793005).wrapping_add(1442695040888963407);
        (self.0 >> 33) % sides
    }

    fn features(&mut self, categories: u64, values: u64) -> BTreeMap<Key, Option<Key>> {
        let mut m = BTreeMap::new();
        for c in 0..categories {
            if self.roll(2) == 0 {
                let v = self.roll(values + 1);
                m.insert(c, if v == values { None } else { Some(100 + v) });
            }
        }
        m
    }
}

fn set(m: &BTreeMap<Key, Option<Key>>) -> FeatureSet {
    let mut fs = FeatureSet::new();
    for (k, v) in m {
        fs.insert(*k, *v);
    }
    fs
}

fn content(fs: &FeatureSet) -> BTreeMap<Key, Option<Key>> {
    fs.pairs().into_iter().collect()
}

fn is_subset(a: &BTreeMap<Key, Option<Key>>, b: &BTreeMap<Key, Option<Key>>) -> bool {
    a.iter().all(|(k, v)| b.get(k) == Some(v))
}

#[test]
fn the_feature_algebra_agrees_with_its_definition() {
    let mut dice = Dice(1);
    for _ in 0..2000 {
        let from = dice.features(4, 2);
        let onto = dice.features(4, 2);
        let ignore = dice.features(4, 2);
        assert_eq!(set(&from).is_subset(&set(&onto)), is_subset(&from, &onto));
        assert!(set(&from).is_subset(&set(&from)));
        assert_eq!(set(&from).equals(&set(&onto)), from == onto);
        let to_add: BTreeMap<Key, Option<Key>> = from
            .iter()
            .filter(|(k, v)| ignore.get(*k) != Some(*v))
            .map(|(k, v)| (*k, *v))
            .collect();
        let conflict = to_add.keys().any(|k| onto.contains_key(k));
        let mut target = set(&onto);
        let r = FeatureSet::project(&set(&from), &mut target, &set(&ignore));
        if conflict {
            assert_eq!(r, Err(Error::CategoryAlreadyHasValue));
            assert_eq!(content(&target), onto);
        } else {
            assert_eq!(r, Ok(()));
            let mut expected = onto.clone();
            expected.extend(to_add);
            assert_eq!(content(&target), expected);
        }
    }
}

fn node(n: Key) -> LexiconNode {
    LexiconNode::Value { value: SyntaxValue::Item(n) }
}

#[test]
fn a_query_finds_exactly_the_stored_subsets() {
    let mut dice = Dice(2);
    for _ in 0..300 {
        let mut lexicon = SimpleLexicon::new();
        let mut trie = TrieMultiMap::new();
        let mut stored: BTreeSet<(BTreeMap<Key, Option<Key>>, Key)> = BTreeSet::new();
        for _ in 0..dice.roll(12) {
            let trigger = dice.features(4, 1);
            let value = dice.roll(3);
            let fresh = stored.insert((trigger.clone(), value));
            assert_eq!(lexicon.add_entry(SyntaxValue::Features(set(&trigger)), node(value)), fresh);
            assert_eq!(trie.insert(set(&trigger).pairs(), node(value)), fresh);
        }
        let all: BTreeSet<(Vec<Label>, Key)> = stored
            .iter()
            .map(|(t, v)| (t.iter().map(|(k, v)| (*k, *v)).collect(), *v))
            .collect();
        let listed = trie.iter();
        assert_eq!(listed.len(), all.len());
        for (path, value) in listed {
            assert!(all.iter().any(|(p, v)| *p == path && node(*v) == value));
        }
        for _ in 0..20 {
            let query = dice.features(4, 1);
            let mut expected: Vec<LexiconEntry> = stored
                .iter()
                .filter(|(t, _)| !t.is_empty() && is_subset(t, &query))
                .map(|(t, v)| {
                    let rest: BTreeMap<Key, Option<Key>> = query
                        .iter()
                        .filter(|(k, _)| !t.contains_key(*k))
                        .map(|(k, v)| (*k, *v))
                        .collect();
                    LexiconEntry::Functional {
                        to: node(*v),
                        project: if *t == query { None } else { Some(set(&rest)) },
                    }
                })
                .collect();
            let mut found = lexicon.get_entries(&SyntaxValue::Features(set(&query)));
            let order = |e: &LexiconEntry| format!("{:?}", e);
            expected.sort_by_key(order);
            expected.dedup();
            found.sort_by_key(order);
            assert_eq!(found, expected);
            let subsets = trie.get_subsets(&set(&query).pairs());
            assert_eq!(subsets.len(), expected.len());
        }
    }
}

/// Keys are the numbers that the words spell.
#[derive(Clone, Copy, Debug, Default)]
struct Numbers;

impl Interner for Numbers {
    fn key_of(&self, _: Text) -> Option<Key> {
        unreachable!()
    }

    fn name_of(&self, _: Key) -> Option<Text> {
        unreachable!()
    }

    fn intern(&self, name: &str) -> Option<Key> {
        name.parse().ok()
    }

    fn resolve(&self, key: Key) -> Option<String> {
        Some(key.to_string())
    }
}

struct Toy {
    lexicon: SimpleLexicon,
    tokenizer: SimpleTokenizer<Numbers>,
}

impl Dialect for Toy {
    type Lexicon = SimpleLexicon;
    type Tokenizer = SimpleTokenizer<Numbers>;
    type Interner = Numbers;

    fn lexicon_spec(&self) -> &SimpleLexicon {
        unreachable!()
    }

    fn tokenizer_spec(&self) -> &SimpleTokenizer<Numbers> {
        unreachable!()
    }

    fn interner_spec(&self) -> &Numbers {
        unreachable!()
    }

    fn name_spec(&self) -> Text {
        unreachable!()
    }

    fn name(&self) -> &str {
        "Toy"
    }

    fn interner(&self) -> &Numbers {
        &Numbers
    }

    fn lexicon(&self) -> &SimpleLexicon {
        &self.lexicon
    }

    fn tokenizer(&self) -> &SimpleTokenizer<Numbers> {
        &self.tokenizer
    }
}

fn bare(keys: &[Key]) -> FeatureSet {
    let mut fs = FeatureSet::new();
    for k in keys {
        fs.insert(*k, None);
    }
    fs
}

fn random_node(dice: &mut Dice) -> LexiconNode {
    let features = |dice: &mut Dice| {
        let mut fs = bare(&[dice.roll(3)]);
        if dice.roll(3) == 0 {
            fs.insert(dice.roll(3), None);
        }
        fs
    };
    match dice.roll(5) {
        0 | 1 => LexiconNode::Value { value: SyntaxValue::Features(features(dice)) },
        2 => LexiconNode::Moved { from: features(dice) },
        _ => LexiconNode::Lambda {
            from: Box::new(LexiconNode::Value { value: SyntaxValue::Features(features(dice)) }),
            to: features(dice),
            project: dice.roll(2) == 0,
        },
    }
}

/// Every derivation of at most `limit` actions, found by trying every
/// action at every step.
fn brute_force(toy: &Toy, model: &LambdaModel, text: &[Key], limit: usize) -> Vec<Vec<Action>> {
    let mut found = Vec::new();
    if text.is_empty() && model.understood() {
        found.push(Vec::new());
        return found;
    }
    if limit == 0 {
        return found;
    }
    let mut steps: Vec<(Action, LambdaModel, &[Key])> = Vec::new();
    if model.demand() && !text.is_empty() {
        let mut next = model.fork();
        if next.receive(text[0]).is_ok() {
            steps.push((Action::AddToken(text[0]), next, &text[1..]));
        }
    }
    if let Some(value) = model.wonder() {
        for entry in toy.lexicon.get_entries(value) {
            let mut next = model.fork();
            if next.decide(entry.clone()).is_ok() {
                steps.push((Action::ApplyEntry(entry), next, text));
            }
        }
    }
    for (action, next, rest) in steps {
        for mut tail in brute_force(toy, &next, rest, limit - 1) {
            tail.insert(0, action.clone());
            found.push(tail);
        }
    }
    found
}

#[test]
fn the_search_finds_every_derivation_and_nothing_else() {
    let mut dice = Dice(3);
    let mut total = 0;
    for _ in 0..150 {
        let mut toy = Toy { lexicon: SimpleLexicon::new(), tokenizer: SimpleTokenizer::new(Numbers) };
        for _ in 0..(2 + dice.roll(5)) {
            let entry = random_node(&mut dice);
            if dice.roll(2) == 0 {
                toy.lexicon.add_entry(SyntaxValue::Item(10 + dice.roll(2)), entry);
            } else {
                toy.lexicon.add_entry(SyntaxValue::Features(bare(&[dice.roll(3)])), entry);
            }
        }
        let words: Vec<Key> = (0..(1 + dice.roll(2))).map(|_| 10 + dice.roll(2)).collect();
        let text = words.iter().map(|w| w.to_string()).collect::<Vec<_>>().join(" ");
        let limit = 5;
        let found = interpret::<Toy, LambdaModel>(&toy, &text, "0", limit).unwrap();
        for actions in found.iter() {
            assert!(actions.len() <= limit);
            let tokens: Vec<Key> = actions
                .iter()
                .filter_map(|a| match a {
                    Action::AddToken(t) => Some(*t),
                    _ => None,
                })
                .collect();
            assert_eq!(tokens, words);
            let model: LambdaModel = follow(&Numbers, "0", actions.clone()).unwrap();
            assert!(model.understood());
        }
        let order = |a: &Vec<Action>| format!("{:?}", a);
        let mut expected = brute_force(&toy, &LambdaModel::init(bare(&[0])), &words, limit);
        expected.sort_by_key(order);
        let mut sorted = found;
        sorted.sort_by_key(order);
        assert_eq!(sorted, expected);
        total += sorted.len();
    }
    assert!(total > 20);
}
