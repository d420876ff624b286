use langbda::cognitive::lambda::{Error, Node, ValidEntry};
use langbda::cognitive::{CognitiveModel, LambdaModel};
use langbda::lexicon::{LexiconEntry, LexiconNode};
use langbda::syntax::{FeatureSet, Key, SyntaxValue};

fn bare(keys: &[Key]) -> FeatureSet {
    let mut fs = FeatureSet::new();
    for k in keys {
        fs.insert(*k, None);
    }
    fs
}

fn features(keys: &[Key]) -> SyntaxValue {
    SyntaxValue::Features(bare(keys))
}

fn value(keys: &[Key]) -> Node {
    Node::Value { value: features(keys) }
}

fn lambda(from: SyntaxValue, to: Node) -> Node {
    Node::Lambda { from, to: Box::new(to) }
}

fn entry(keys: &[Key]) -> LexiconNode {
    LexiconNode::Value { value: features(keys) }
}

fn failed(e: Error) -> Result<(), langbda::cognitive::Error> {
    Err(langbda::cognitive::Error::LambdaModel(e))
}

fn stack(model: &LambdaModel) -> Vec<Node> {
    let mut copy = model.fork();
    let mut nodes = Vec::new();
    while let Some(node) = copy.pop() {
        nodes.push(node);
    }
    nodes.reverse();
    nodes
}

const S: Key = 1;
const V: Key = 2;
const N: Key = 3;
const GO: Key = 10;

#[test]
fn a_new_model_expects_the_target() {
    let model = LambdaModel::init(bare(&[S]));
    assert_eq!(stack(&model), vec![value(&[S])]);
    assert!(!model.understood());
    assert!(model.demand());
    assert_eq!(model.wonder(), None);
    assert_eq!(model.peek(), Some(&value(&[S])));
    assert!(LambdaModel::new().understood());
    assert!(LambdaModel::default().is_empty());
    assert_eq!(LambdaModel::new().peek(), None);
}

#[test]
fn a_token_awaits_its_interpretation() {
    let mut model = LambdaModel::init(bare(&[S]));
    assert_eq!(model.receive(GO), Ok(()));
    assert_eq!(stack(&model), vec![lambda(SyntaxValue::Item(GO), value(&[S]))]);
    assert_eq!(model.wonder(), Some(&SyntaxValue::Item(GO)));
    assert!(model.demand());
    assert_eq!(model.receive(GO + 1), Ok(()));
    assert_eq!(
        stack(&model),
        vec![lambda(SyntaxValue::Item(GO + 1), lambda(SyntaxValue::Item(GO), value(&[S])))]
    );
    assert!(!model.demand());
}

#[test]
fn nothing_is_taken_when_nothing_is_expected() {
    let mut model = LambdaModel::new();
    assert!(!model.demand());
    assert_eq!(model.receive(GO), failed(Error::NoExpectation));
    assert_eq!(model.decide(LexiconEntry::Lexical(entry(&[S]))), failed(Error::NoExpectation));
    assert_eq!(model.pop_node(), Err(Error::NoExpectation));
    assert_eq!(model.pop(), None);
}

#[test]
fn an_entry_needs_a_pending_application() {
    let mut model = LambdaModel::init(bare(&[S]));
    assert_eq!(
        model.decide(LexiconEntry::Lexical(entry(&[S]))),
        failed(Error::ApplyEntryToNonLambda)
    );
    assert!(model.understood());
    let mut model = LambdaModel::new();
    model.push_projection(bare(&[S]));
    assert!(!model.demand());
    assert_eq!(model.wonder(), None);
    assert_eq!(
        model.decide(LexiconEntry::Lexical(entry(&[S]))),
        failed(Error::ApplyEntryToNonLambda)
    );
}

#[test]
fn the_entry_must_be_of_the_kind_of_the_query() {
    let mut model = LambdaModel::init(bare(&[S]));
    model.receive(GO).unwrap();
    assert_eq!(
        model.decide(LexiconEntry::Functional { to: entry(&[S]), project: None }),
        failed(Error::QueryAndEntryTypeMismatch)
    );
    let mut model = LambdaModel::new();
    model.push_lambda(features(&[V]), value(&[S]));
    assert_eq!(
        model.decide(LexiconEntry::Lexical(entry(&[S]))),
        failed(Error::QueryAndEntryTypeMismatch)
    );
}

#[test]
fn a_token_is_no_interpretation() {
    let mut model = LambdaModel::init(bare(&[S]));
    model.receive(GO).unwrap();
    let token = LexiconNode::Value { value: SyntaxValue::Item(N) };
    assert_eq!(model.decide(LexiconEntry::Lexical(token)), failed(Error::TypeConversion));
    assert_eq!(
        ValidEntry::try_from_node(LexiconNode::Value { value: SyntaxValue::Item(N) }),
        Err(Error::TypeConversion)
    );
    assert_eq!(
        ValidEntry::try_from_node(LexiconNode::Moved { from: bare(&[N]) }),
        Ok(ValidEntry::Features(bare(&[N])))
    );
}

#[test]
fn a_vacuous_application_is_not_pushed() {
    let mut model = LambdaModel::init(bare(&[S]));
    model.receive(GO).unwrap();
    assert_eq!(model.decide(LexiconEntry::Lexical(entry(&[S, V]))), Ok(()));
    assert!(model.understood());

    let mut model = LambdaModel::init(bare(&[S]));
    model.receive(GO).unwrap();
    assert_eq!(model.decide(LexiconEntry::Lexical(entry(&[V]))), Ok(()));
    assert_eq!(stack(&model), vec![lambda(features(&[V]), value(&[S]))]);
    assert_eq!(model.wonder(), Some(&features(&[V])));
}

#[test]
fn the_features_of_the_query_are_merged_onto_the_result() {
    let mut model = LambdaModel::new();
    model.push_lambda(features(&[V, N]), value(&[S]));
    // the trigger V leaves N uncovered: V is merged onto the result
    let rule = LexiconEntry::Functional { to: entry(&[S]), project: Some(bare(&[N])) };
    assert_eq!(model.decide(rule), Ok(()));
    assert!(model.understood());

    let mut model = LambdaModel::new();
    model.push_lambda(features(&[V, N]), value(&[S]));
    let rule = LexiconEntry::Functional { to: entry(&[S + 10]), project: Some(bare(&[N])) };
    assert_eq!(model.decide(rule), Ok(()));
    assert_eq!(stack(&model), vec![lambda(features(&[S + 10, V]), value(&[S]))]);
}

#[test]
fn a_conflict_in_the_merge_fails_the_step() {
    let mut model = LambdaModel::new();
    model.push_lambda(features(&[V]), value(&[S]));
    let rule = LexiconEntry::Functional { to: entry(&[V]), project: Some(bare(&[])) };
    assert_eq!(
        model.decide(rule),
        failed(Error::Syntax(langbda::syntax::Error::CategoryAlreadyHasValue))
    );
}

#[test]
fn a_function_entry_puts_its_argument_in_focus() {
    let mut model = LambdaModel::init(bare(&[S]));
    model.receive(GO).unwrap();
    let function =
        LexiconNode::Lambda { from: Box::new(entry(&[N])), to: bare(&[V]), project: true };
    assert_eq!(model.decide(LexiconEntry::Lexical(function)), Ok(()));
    assert_eq!(
        stack(&model),
        vec![lambda(features(&[V]), value(&[S])), Node::Projection { ignore: bare(&[N]) }, value(&[N])]
    );
    assert!(model.demand());
    assert_eq!(model.wonder(), None);
    // the argument arrives with a feature more than asked for
    model.receive(GO + 1).unwrap();
    let mut noun = bare(&[N]);
    noun.insert(20, Some(21));
    assert_eq!(
        model.decide(LexiconEntry::Lexical(LexiconNode::Value {
            value: SyntaxValue::Features(noun)
        })),
        Ok(())
    );
    let mut handed_on = bare(&[V]);
    handed_on.insert(20, Some(21));
    assert_eq!(stack(&model), vec![lambda(SyntaxValue::Features(handed_on), value(&[S]))]);
}

#[test]
fn a_function_of_a_function_cannot_be_expected() {
    let inner = LexiconNode::Lambda { from: Box::new(entry(&[N])), to: bare(&[V]), project: false };
    let outer = LexiconNode::Lambda { from: Box::new(inner), to: bare(&[S]), project: false };
    let valid = ValidEntry::try_from_node(outer.clone()).unwrap();
    assert_eq!(valid.get_features_right(), &bare(&[S]));
    assert_eq!(Node::try_from_entry(valid), Err(Error::TypeConversion));
    // applied, the outer function puts the inner one in focus
    let mut model = LambdaModel::init(bare(&[S]));
    model.receive(GO).unwrap();
    assert_eq!(model.decide(LexiconEntry::Lexical(outer.clone())), Ok(()));
    assert_eq!(stack(&model), vec![lambda(features(&[N]), value(&[V]))]);
    // one level more, and the function in focus would await a function
    let outermost = LexiconNode::Lambda { from: Box::new(outer), to: bare(&[S]), project: false };
    let mut model = LambdaModel::init(bare(&[S]));
    model.receive(GO).unwrap();
    assert_eq!(model.decide(LexiconEntry::Lexical(outermost)), failed(Error::TypeConversion));
}

#[test]
fn the_result_of_an_application_must_be_features() {
    let mut model = LambdaModel::new();
    let token = Node::Value { value: SyntaxValue::Item(GO) };
    assert_eq!(
        model.push_lexicon_lambda(ValidEntry::Features(bare(&[V])), token),
        Err(Error::LambdaToMustBeFeatures)
    );
    assert_eq!(
        model.push_lexicon_lambda(
            ValidEntry::Features(bare(&[V])),
            Node::Projection { ignore: bare(&[]) }
        ),
        Err(Error::LambdaToMustBeFeatures)
    );
    let function = ValidEntry::Lambda {
        from: Box::new(ValidEntry::Features(bare(&[N]))),
        to: bare(&[V]),
        project: false,
    };
    let token = Node::Value { value: SyntaxValue::Item(GO) };
    assert_eq!(model.push_lexicon_lambda(function, token), Err(Error::LambdaToMustBeFeatures));
    assert!(model.is_empty());
}

#[test]
fn a_plain_entry_against_an_application_is_pushed_whole() {
    let mut model = LambdaModel::new();
    let to = lambda(SyntaxValue::Item(GO), value(&[S]));
    assert_eq!(model.push_lexicon_lambda(ValidEntry::from_features(bare(&[V])), to), Ok(true));
    assert_eq!(
        stack(&model),
        vec![lambda(features(&[V]), lambda(SyntaxValue::Item(GO), value(&[S])))]
    );
    assert_eq!(model.push_lambda_features(bare(&[V, N]), bare(&[V])), Ok(false));
    assert_eq!(model.push_lambda_features(bare(&[V]), bare(&[V, N])), Ok(true));
}

#[test]
fn a_projection_marker_is_used_up() {
    let mut model = LambdaModel::new();
    model.push(value(&[S]));
    model.push_projection(bare(&[V]));
    assert_eq!(model.possibly_project(&bare(&[V, N])), Ok(()));
    assert_eq!(stack(&model), vec![value(&[S, N])]);
    // without a marker nothing happens
    assert_eq!(model.possibly_project(&bare(&[V])), Ok(()));
    assert_eq!(stack(&model), vec![value(&[S, N])]);
    // a conflict fails, with the marker gone
    model.push_projection(bare(&[]));
    assert_eq!(
        model.possibly_project(&bare(&[N])),
        Err(Error::Syntax(langbda::syntax::Error::CategoryAlreadyHasValue))
    );
    assert_eq!(stack(&model), vec![value(&[S, N])]);
    // a marker above a token is taken off for nothing
    let mut model = LambdaModel::new();
    model.push(Node::Value { value: SyntaxValue::Item(GO) });
    model.push_projection(bare(&[]));
    assert_eq!(model.possibly_project(&bare(&[N])), Ok(()));
    assert_eq!(stack(&model), vec![Node::Value { value: SyntaxValue::Item(GO) }]);
}

#[test]
fn the_focus_can_be_changed_in_place() {
    let mut model = LambdaModel::init(bare(&[S]));
    {
        let node = model.peek_mut().unwrap();
        let left = node.get_features_left_mut().unwrap();
        left.insert(N, None);
    }
    assert_eq!(stack(&model), vec![value(&[S, N])]);
    let mut node = lambda(features(&[V]), value(&[S]));
    node.get_features_left_mut().unwrap().insert(N, None);
    assert_eq!(node, lambda(features(&[V, N]), value(&[S])));
    assert_eq!(Node::Projection { ignore: bare(&[S]) }.get_features_left_mut(), None);
    assert_eq!(Node::Value { value: SyntaxValue::Item(GO) }.get_features_left_mut(), None);
    assert!(LambdaModel::new().peek_mut().is_none());
    let mut function = ValidEntry::Lambda {
        from: Box::new(ValidEntry::Features(bare(&[N]))),
        to: bare(&[V]),
        project: false,
    };
    function.get_features_right_mut().insert(S, None);
    assert_eq!(function.get_features_right(), &bare(&[V, S]));
    assert_eq!(function.try_into_syntax_value(), Err(Error::TypeConversion));
    assert_eq!(ValidEntry::Features(bare(&[N])).try_into_syntax_value(), Ok(features(&[N])));
}
