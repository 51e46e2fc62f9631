use vstd::prelude::*;
use crate::var::Var;
use crate::vm::runtime::Vm;
use crate::var::ctor::{ctor_of, ctor_outcome, Make};

pub use crate::prelude::objects::string::{escape, template};

verus! {

/// The string type's constructor object, the same on every call while the runtime keeps it;
/// calling it makes a new empty string.
pub fn ctor(vm: &mut Vm) -> (res: Var)
    ensures
        ctor_outcome(*old(vm), *final(vm), Make::Str, res),
        old(vm).wf() ==> final(vm).wf(),
{
    ctor_of(vm, Make::Str)
}

} // verus!
