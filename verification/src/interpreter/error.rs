use vstd::prelude::*;

verus! {

/// Why an interpretation could not be started or followed.
#[derive(Debug, Clone, Copy, PartialEq, Eq, Structural)]
pub enum Error {
    /// The name of the target category could not be made a key.
    FromStr,
    /// A step of the derivation failed.
    Cognitive(crate::cognitive::Error),
}

} // verus!
