use vstd::prelude::*;

verus! {

/// A boolean object.
pub struct Bool(pub bool);

impl Bool {
    pub fn new(value: bool) -> (res: Self)
        ensures
            res.0 == value,
    {
        Self(value)
    }
}

} // verus!
