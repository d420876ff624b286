use vstd::prelude::*;

verus! {

/// A side: of a child under its parent, and the side from which a function
/// hands features on to its result.
#[derive(Debug, Clone, Copy, PartialEq, Eq, Hash, Structural)]
pub enum Direction {
    Left,
    Right,
}

} // verus!
