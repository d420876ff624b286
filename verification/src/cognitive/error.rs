use vstd::prelude::*;

verus! {

/// What a cognitive model reports when a step cannot be taken.
#[derive(Debug, Clone, Copy, PartialEq, Eq, Structural)]
pub enum Error {
    LambdaModel(super::lambda::Error),
    TreeModel(super::tree::Error),
}

} // verus!
