use vstd::prelude::*;
use crate::var::{Value, Var, VarPtr};
use crate::vm::ctx::lemma_push_wf;
use crate::vm::heap::Mark;
use crate::vm::runtime::{heap_wf, Vm};

verus! {

/// The undefined value.
pub struct Undef();

/// A new undefined value on the heap.
pub fn new(vm: &mut Vm) -> (res: Var)
    ensures
        res.ptr == old(vm).heap@.len(),
        final(vm).heap@ == old(vm).heap@.push(Some(VarPtr { mark: Mark::New, value: Value::Undef(Undef()) })),
        final(vm).same_roots(old(vm)),
        heap_wf(old(vm).heap@) ==> heap_wf(final(vm).heap@),
        old(vm).wf() ==> final(vm).wf(),
{
    let r = vm.alloc_value(Value::Undef(Undef()));
    proof { assert(vm.heap@.drop_last() =~= old(vm).heap@); lemma_push_wf(*old(vm), *vm); }
    r
}

} // verus!
