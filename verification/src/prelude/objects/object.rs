use vstd::prelude::*;
use crate::table::Entry;

verus! {

/// A plain object: its named fields.
pub struct Object {
    pub this: Vec<Entry>,
}

impl Object {
    /// An object with the fields of `map`.
    pub fn new(map: Vec<Entry>) -> (res: Self)
        ensures
            res.this == map,
    {
        Object { this: map }
    }
}

} // verus!
