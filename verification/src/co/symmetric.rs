use vstd::prelude::*;

verus! {

/// The stage a coroutine is in. The coroutines themselves switch stacks with unsafe code of
/// an outside crate, so only their stages stand in this library.
#[derive(Clone, Copy, PartialEq, Eq, Structural, Debug)]
pub enum State {
    Created,
    Running,
    Finished,
    ForceUnwind,
}

} // verus!
