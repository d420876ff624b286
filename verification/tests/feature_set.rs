use langbda::interner::Interner;
use langbda::syntax::{Error, Feature, FeatureSet, Key, SyntaxValue};
use langbda::text::Text;
use lasso::{Key as _, Rodeo};

fn key(rodeo: &mut Rodeo, name: &str) -> Key {
    rodeo.get_or_intern(name).into_usize() as Key
}

#[test]
fn project_feature_set() {
    let mut rodeo = Rodeo::default();
    let (a, b, c, d) = (
        key(&mut rodeo, "a"),
        key(&mut rodeo, "b"),
        key(&mut rodeo, "c"),
        key(&mut rodeo, "d"),
    );
    let mut from = FeatureSet::new();
    from.insert(a, Some(b));
    from.insert(c, Some(d));
    let mut ignore = FeatureSet::new();
    ignore.insert(c, Some(d));
    let mut onto = FeatureSet::new();

    FeatureSet::project(&from, &mut onto, &ignore).unwrap();
    let mut expected = FeatureSet::new();
    expected.insert(a, Some(b));
    assert_eq!(onto, expected);
}

#[test]
fn project_feature_set_conflict() {
    let mut rodeo = Rodeo::default();
    let (a, b, c, d, e) = (
        key(&mut rodeo, "a"),
        key(&mut rodeo, "b"),
        key(&mut rodeo, "c"),
        key(&mut rodeo, "d"),
        key(&mut rodeo, "e"),
    );
    let mut from = FeatureSet::new();
    from.insert(a, Some(b));
    from.insert(c, Some(d));
    let ignore = FeatureSet::new();
    let mut onto = FeatureSet::new();
    onto.insert(c, Some(e));
    assert!(FeatureSet::project(&from, &mut onto, &ignore).is_err());
}

#[test]
fn projection_onto_empty_adds_every_pair() {
    let (case, nom) = (1, 2);
    let mut from = FeatureSet::new();
    from.insert(case, Some(nom));
    let ignore = FeatureSet::new();
    let mut onto = FeatureSet::new();
    assert_eq!(FeatureSet::project(&from, &mut onto, &ignore), Ok(()));
    assert_eq!(onto, from);
    assert_eq!(onto.get(&case), Some(&Some(nom)));
    assert_eq!(onto.len(), 1);
}

#[test]
fn projection_conflicts_even_on_the_same_value() {
    let (case, nom) = (1, 2);
    let mut from = FeatureSet::new();
    from.insert(case, Some(nom));
    let ignore = FeatureSet::new();
    let mut onto = FeatureSet::new();
    onto.insert(case, Some(nom));
    assert_eq!(
        FeatureSet::project(&from, &mut onto, &ignore),
        Err(Error::CategoryAlreadyHasValue)
    );
}

#[test]
fn failed_projection_leaves_the_target_as_it_was() {
    let mut from = FeatureSet::new();
    from.insert(1, Some(10));
    from.insert(2, Some(20));
    from.insert(3, None);
    let ignore = FeatureSet::new();
    let mut onto = FeatureSet::new();
    onto.insert(2, None);
    let before = onto.clone();
    assert!(FeatureSet::project(&from, &mut onto, &ignore).is_err());
    assert_eq!(onto, before);
}

#[test]
fn projection_ignores_only_identical_pairs() {
    let mut from = FeatureSet::new();
    from.insert(1, Some(10));
    from.insert(2, Some(20));
    let mut ignore = FeatureSet::new();
    ignore.insert(1, Some(11));
    ignore.insert(2, Some(20));
    let mut onto = FeatureSet::new();
    assert_eq!(FeatureSet::project(&from, &mut onto, &ignore), Ok(()));
    let mut expected = FeatureSet::new();
    expected.insert(1, Some(10));
    assert_eq!(onto, expected);
}

#[test]
fn every_set_is_a_subset_of_itself() {
    let empty = FeatureSet::new();
    assert!(empty.is_subset(&empty));
    let mut fs = FeatureSet::new();
    fs.insert(7, None);
    fs.insert(3, Some(4));
    assert!(fs.is_subset(&fs));
    assert!(empty.is_subset(&fs));
    assert!(!fs.is_subset(&empty));
}

#[test]
fn subset_compares_values_too() {
    let mut small = FeatureSet::new();
    small.insert(3, Some(4));
    let mut big = FeatureSet::new();
    big.insert(3, Some(5));
    big.insert(7, None);
    assert!(!small.is_subset(&big));
    big.insert(3, Some(4));
    assert!(small.is_subset(&big));
    assert!(!big.is_subset(&small));
}

#[test]
fn insert_if_absent_refuses_a_defined_category() {
    let mut fs = FeatureSet::new();
    assert_eq!(fs.insert_if_absent(1, None), Ok(()));
    assert_eq!(fs.insert_if_absent(1, None), Err(Error::CategoryAlreadyHasValue));
    assert_eq!(fs.insert_if_absent(1, Some(2)), Err(Error::CategoryAlreadyHasValue));
    assert_eq!(fs.get(&1), Some(&None));
}

#[test]
fn remove_key_value_needs_the_identical_pair() {
    let mut fs = FeatureSet::from_category(5);
    fs.insert(6, Some(60));
    fs.remove_key_value(&6, &Some(61));
    assert!(fs.contains_key_value(&6, &Some(60)));
    fs.remove_key_value(&6, &Some(60));
    assert!(!fs.contains_key_value(&6, &Some(60)));
    assert_eq!(fs.get(&6), None);
    fs.remove(&5);
    assert_eq!(fs, FeatureSet::new());
    assert_eq!(fs, FeatureSet::default());
}

#[test]
fn pairs_come_in_ascending_order_of_categories() {
    let mut fs = FeatureSet::new();
    fs.insert(9, None);
    fs.insert(2, Some(5));
    fs.insert(4, Some(1));
    assert_eq!(fs.pairs(), vec![(2, Some(5)), (4, Some(1)), (9, None)]);
    let mut iter = fs.iter();
    assert_eq!(iter.next(), Some((2, Some(5))));
    assert_eq!(iter.next(), Some((4, Some(1))));
    assert_eq!(iter.next(), Some((9, None)));
    assert_eq!(iter.next(), None);
    assert_eq!(iter.next(), None);
}

#[test]
fn equals_agrees_with_equality() {
    let mut a = FeatureSet::new();
    a.insert(1, Some(2));
    let mut b = FeatureSet::new();
    b.insert(1, Some(2));
    assert!(a.equals(&b));
    b.insert(3, None);
    assert!(!a.equals(&b));
    assert!(!b.equals(&a));
}

#[test]
fn a_token_is_no_feature_set() {
    let item = SyntaxValue::from_item(4);
    assert_eq!(item.as_features(), Err(Error::TypeConversion));
    assert_eq!(item.into_features(), Err(Error::TypeConversion));
    let fs = FeatureSet::from_category(4);
    let value = SyntaxValue::from_features(fs.clone());
    assert_eq!(value.as_features(), Ok(&fs));
    assert!(value.equals(&SyntaxValue::Features(fs.clone())));
    assert!(!value.equals(&SyntaxValue::Item(4)));
    assert_eq!(value.into_features(), Ok(fs));
}

#[test]
fn errors_print_their_names() {
    assert_eq!(Error::CategoryAlreadyHasValue.to_string(), "CategoryAlreadyHasValue");
    assert_eq!(Error::TypeConversion.to_string(), "TypeConversion");
}

#[test]
fn feature_set_project_feature_set() {
    let mut rodeo = Rodeo::default();
    let (a, b, c, d) = (
        key(&mut rodeo, "a"),
        key(&mut rodeo, "b"),
        key(&mut rodeo, "c"),
        key(&mut rodeo, "d"),
    );
    let mut from = FeatureSet::new();
    from.insert(a, Some(b));
    from.insert(c, Some(d));
    let mut ignore = FeatureSet::new();
    ignore.insert(c, Some(d));
    let mut onto = FeatureSet::new();

    FeatureSet::project(&from, &mut onto, &ignore).unwrap();
    assert_eq!(onto, FeatureSet::from_feature(Feature::new_both(a, b)));
}

#[test]
fn feature_set_project_feature_set_conflict() {
    let mut rodeo = Rodeo::default();
    let (a, b, c, d, e) = (
        key(&mut rodeo, "a"),
        key(&mut rodeo, "b"),
        key(&mut rodeo, "c"),
        key(&mut rodeo, "d"),
        key(&mut rodeo, "e"),
    );
    let mut from = FeatureSet::new();
    from.insert(a, Some(b));
    from.insert(c, Some(d));
    let ignore: FeatureSet = FeatureSet::new();
    let mut onto = FeatureSet::new();
    onto.insert(c, Some(e));
    assert!(FeatureSet::project(&from, &mut onto, &ignore).is_err());
}

#[test]
fn a_category_without_a_value_is_no_feature() {
    let mut fs = FeatureSet::new();
    assert_eq!(fs.insert_feature(Feature::new_category(1)), Err(Error::FeatureIsCategory));
    assert_eq!(fs.insert_feature(Feature::new_value(1)), Ok(()));
    assert_eq!(fs.insert_feature(Feature::new_both(1, 2)), Err(Error::CategoryAlreadyHasValue));
    assert_eq!(fs.insert_feature(Feature::new_both(3, 4)), Ok(()));
    assert_eq!(fs.pairs(), vec![(1, None), (3, Some(4))]);
    assert_eq!(Error::FeatureIsCategory.to_string(), "FeatureIsCategory");
}

#[test]
fn a_feature_is_written_with_its_names() {
    let names = Words(lasso::ThreadedRodeo::default());
    let case = names.intern("case").unwrap();
    let nom = names.intern("nom").unwrap();
    assert_eq!(Feature::new_both(case, nom).to_string(&names).unwrap(), "case:nom");
    assert_eq!(Feature::new_category(case).to_string(&names).unwrap(), "case");
    assert_eq!(Feature::new_value(nom).to_string(&names).unwrap(), "nom");
    assert_eq!(Feature::new_both(case, nom + 10).to_string(&names), None);
    assert_eq!(Feature::new_value(nom + 10).to_string(&names), None);
}

struct Words(lasso::ThreadedRodeo);

impl Interner for Words {
    fn key_of(&self, _: Text) -> Option<Key> {
        unreachable!()
    }

    fn name_of(&self, _: Key) -> Option<Text> {
        unreachable!()
    }

    fn intern(&self, name: &str) -> Option<Key> {
        Some(self.0.get_or_intern(name).into_usize() as Key)
    }

    fn resolve(&self, key: Key) -> Option<String> {
        let spur = lasso::Spur::try_from_usize(key as usize)?;
        self.0.try_resolve(&spur).map(|s| s.to_string())
    }
}
