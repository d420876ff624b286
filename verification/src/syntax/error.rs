use vstd::prelude::*;

verus! {

/// What can go wrong in the feature algebra.
#[derive(Debug, Clone, Copy, PartialEq, Eq, Structural)]
pub enum Error {
    /// A merge tried to add a category that the target already defines.
    CategoryAlreadyHasValue,
    /// A token was found where a feature set was required.
    TypeConversion,
    /// A category without a value was given where a feature was required.
    FeatureIsCategory,
}

impl Error {
    /// The error's name, as it is printed.
    pub fn to_string(&self) -> (s: String)
        ensures
            s@ == (match *self {
                Error::CategoryAlreadyHasValue => "CategoryAlreadyHasValue"@,
                Error::TypeConversion => "TypeConversion"@,
                Error::FeatureIsCategory => "FeatureIsCategory"@,
            }),
    {
        match self {
            Error::CategoryAlreadyHasValue => "CategoryAlreadyHasValue".to_string(),
            Error::TypeConversion => "TypeConversion".to_string(),
            Error::FeatureIsCategory => "FeatureIsCategory".to_string(),
        }
    }
}

} // verus!
