use crate::syntax::Key;
use crate::text::Text;
use vstd::prelude::*;

verus! {

/// The content of an optional string.
pub open spec fn name_view(name: Option<String>) -> Option<Text> {
    match name {
        Some(s) => Some(s@),
        None => None,
    }
}

/// The link between keys and the names they stand for. The library
/// compares and orders keys as numbers; only an interner knows their names.
pub trait Interner {
    /// The key that stands for `name`, if the name can be made a key.
    spec fn key_of(&self, name: Text) -> Option<Key>;

    /// The name that `key` stands for, if it stands for one.
    spec fn name_of(&self, key: Key) -> Option<Text>;

    /// The key that stands for `name`.
    fn intern(&self, name: &str) -> (r: Option<Key>)
        ensures
            r == self.key_of(name@),
    ;

    /// The name that `key` stands for.
    fn resolve(&self, key: Key) -> (r: Option<String>)
        ensures
            name_view(r) == self.name_of(key),
    ;
}

} // verus!
