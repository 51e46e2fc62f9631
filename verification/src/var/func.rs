use vstd::prelude::*;
use crate::var::Var;
use crate::vm::runtime::Vm;
use crate::var::ctor::{ctor_of, ctor_outcome, Make};

verus! {

/// The arguments of a call, and the object that made the call.
pub struct Args {
    pub args: Vec<Var>,
    pub caller: Var,
}

impl Args {
    pub fn new(args: Vec<Var>, caller: Var) -> (res: Self)
        ensures
            res.args@ == args@,
            res.caller == caller,
    {
        Self { args, caller }
    }

    /// What the argument type's constructor makes: no arguments, the undefined value as the
    /// caller.
    pub fn ctor(vm: &Vm) -> (res: Self)
        requires
            vm.undef is Some,
        ensures
            res.args@.len() == 0,
            res.caller == vm.undef->Some_0,
    {
        Self::new(Vec::new(), vm.undef.unwrap())
    }

    /// The arguments, in order.
    pub fn get_args(&self) -> (res: &Vec<Var>)
        ensures
            res@ == self.args@,
    {
        &self.args
    }
}

/// The function type's constructor object, the same on every call while the runtime keeps it;
/// calling it makes a new function with no parameters and no code.
pub fn ctor(vm: &mut Vm) -> (res: Var)
    ensures
        ctor_outcome(*old(vm), *final(vm), Make::Func, res),
        old(vm).wf() ==> final(vm).wf(),
{
    ctor_of(vm, Make::Func)
}

} // verus!
