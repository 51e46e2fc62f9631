use vstd::prelude::*;

verus! {

/// What resuming a suspended computation gives: a value it yields, or its final result.
pub enum Step<Y, R> {
    Yield(Y),
    Return(R),
}

} // verus!
