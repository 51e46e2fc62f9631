use vstd::prelude::*;
use crate::table::{table_unique, Entry};
use crate::var::{Value, Var, VarPtr};
use crate::vm::heap::Mark;
use crate::vm::runtime::{heap_wf, value_wf, Vm};
use crate::vm::CtxType;

verus! {

/// A scope: the names bound in it and the scope around it.
pub struct Ctx {
    pub vars: Vec<Entry>,
    pub upper: Var,
}

/// The object outside the outermost scope: every access to it fails.
pub struct Void();

/// A fresh slot holding an empty scope inside `upper`.
pub open spec fn empty_scope(slot: Option<VarPtr>, upper: Var) -> bool {
    &&& slot is Some
    &&& slot->Some_0.mark == Mark::New
    &&& slot->Some_0.value is Ctx
    &&& slot->Some_0.value->Ctx_0.upper == upper
    &&& slot->Some_0.value->Ctx_0.vars@.len() == 0
}

/// A new object outside any scope.
pub fn void_ctx(vm: &mut Vm) -> (res: CtxType)
    ensures
        res.ptr == old(vm).heap@.len(),
        final(vm).heap@ == old(vm).heap@.push(Some(VarPtr { mark: Mark::New, value: Value::Void(Void()) })),
        final(vm).same_roots(old(vm)),
        heap_wf(old(vm).heap@) ==> heap_wf(final(vm).heap@),
        old(vm).wf() ==> final(vm).wf(),
{
    let r = vm.alloc_value(Value::Void(Void()));
    proof { assert(vm.heap@.drop_last() =~= old(vm).heap@); lemma_push_wf(*old(vm), *vm); }
    r
}

/// A new empty scope inside `upper`.
pub fn default(vm: &mut Vm, upper: CtxType) -> (res: CtxType)
    ensures
        res.ptr == old(vm).heap@.len(),
        final(vm).heap@.len() == old(vm).heap@.len() + 1,
        final(vm).heap@.drop_last() == old(vm).heap@,
        empty_scope(final(vm).heap@.last(), upper),
        final(vm).same_roots(old(vm)),
        heap_wf(old(vm).heap@) ==> heap_wf(final(vm).heap@),
        old(vm).wf() ==> final(vm).wf(),
{
    let r = vm.alloc_value(Value::Ctx(Ctx { vars: Vec::new(), upper }));
    proof { assert(vm.heap@.drop_last() =~= old(vm).heap@); lemma_push_wf(*old(vm), *vm); }
    r
}

/// A new scope binding what `map` binds, inside `upper`, or inside a new void object where
/// there is none.
pub fn from_map(vm: &mut Vm, map: Vec<Entry>, upper: Option<CtxType>) -> (res: CtxType)
    requires
        table_unique(map@),
    ensures
        match upper {
            Some(u) => {
                &&& res.ptr == old(vm).heap@.len()
                &&& final(vm).heap@ == old(vm).heap@.push(Some(VarPtr { mark: Mark::New, value: Value::Ctx(Ctx { vars: map, upper: u }) }))
            },
            None => {
                &&& res.ptr == old(vm).heap@.len() + 1
                &&& final(vm).heap@ == old(vm).heap@
                    .push(Some(VarPtr { mark: Mark::New, value: Value::Void(Void()) }))
                    .push(Some(VarPtr { mark: Mark::New, value: Value::Ctx(Ctx { vars: map, upper: Var { ptr: old(vm).heap@.len() as usize } }) }))
            },
        },
        final(vm).same_roots(old(vm)),
        heap_wf(old(vm).heap@) ==> heap_wf(final(vm).heap@),
        old(vm).wf() ==> final(vm).wf(),
{
    let up = match upper {
        Some(u) => u,
        None => void_ctx(vm),
    };
    let ghost mid = *vm;
    let r = vm.alloc_value(Value::Ctx(Ctx { vars: map, upper: up }));
    proof { assert(vm.heap@.drop_last() =~= mid.heap@); lemma_push_wf(mid, *vm); }
    r
}

/// Putting a consistent object on the heap keeps the runtime consistent.
pub proof fn lemma_push_wf(old: Vm, new: Vm)
    requires
        new.heap@.len() == old.heap@.len() + 1,
        new.heap@.drop_last() == old.heap@,
        new.heap@.last() is Some,
        value_wf(new.heap@.last()->Some_0.value),
        new.same_roots(&old),
    ensures
        heap_wf(old.heap@) ==> heap_wf(new.heap@),
        old.wf() ==> new.wf(),
{
    assert forall|i: int| 0 <= i < old.heap@.len() implies new.heap@[i] == old.heap@[i] by {
        assert(new.heap@[i] == new.heap@.drop_last()[i]);
    }
}

} // verus!
