use vstd::prelude::*;
use crate::var::Var;
use crate::vm::runtime::Vm;
use crate::var::ctor::{ctor_of, ctor_outcome, Make};

verus! {

/// A list: its elements.
pub struct List {
    pub data: Vec<Var>,
}

impl List {
    /// The list of the elements `v`, in order.
    pub fn new(v: Vec<Var>) -> (res: Self)
        ensures
            res.data@ == v@,
    {
        Self { data: v }
    }
}

/// The list type's constructor object, the same on every call while the runtime keeps it;
/// calling it makes the list of its arguments.
pub fn ctor(vm: &mut Vm) -> (res: Var)
    ensures
        ctor_outcome(*old(vm), *final(vm), Make::List, res),
        old(vm).wf() ==> final(vm).wf(),
{
    ctor_of(vm, Make::List)
}

} // verus!
