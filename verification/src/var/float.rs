use vstd::prelude::*;
use crate::var::Var;
use crate::vm::runtime::Vm;
use crate::var::ctor::{ctor_of, ctor_outcome, Make};

verus! {

/// The number type's constructor object, the same on every call while the runtime keeps it;
/// calling it makes a new integer zero (an integer, not a number).
pub fn ctor(vm: &mut Vm) -> (res: Var)
    ensures
        ctor_outcome(*old(vm), *final(vm), Make::Float, res),
        old(vm).wf() ==> final(vm).wf(),
{
    ctor_of(vm, Make::Float)
}

} // verus!
