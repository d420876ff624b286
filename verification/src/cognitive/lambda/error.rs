use vstd::prelude::*;

verus! {

/// Why a step of the frontier model cannot be taken.
#[derive(Debug, Clone, Copy, PartialEq, Eq, Structural)]
pub enum Error {
    /// A token arrived, or an entry was applied, with nothing expected.
    NoExpectation,
    /// An entry was applied while the focus was no pending application.
    ApplyEntryToNonLambda,
    /// A merge of feature sets failed.
    Syntax(crate::syntax::Error),
    /// A token was answered by a functional entry, or a feature set by a
    /// lexical one.
    QueryAndEntryTypeMismatch,
    /// The result that an application was expected to give is no feature
    /// set.
    LambdaToMustBeFeatures,
    /// An entry has a token, or a nested function, where a feature set is
    /// required.
    TypeConversion,
}

} // verus!
