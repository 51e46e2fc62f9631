use vstd::prelude::*;

pub mod t2c;

verus! {

/// The parser of the language's surface syntax.
pub struct ClayParser;

} // verus!
