use vstd::prelude::*;
use crate::prelude::objects::method::{method_key, method_name, uuid_v4_text, Method};
use crate::table::table_get;
use crate::var::meta::def;
use crate::var::{Value, Var};
use crate::vm::heap::{live, object};
use crate::vm::runtime::{heap_wf, Vm};

verus! {

/// Defines `str` in the global scope as a new method named `str`.
pub fn global_init(vm: &mut Vm)
    requires
        old(vm).wf(),
        old(vm).global_context matches Some(g) && live(old(vm).heap@, g) && object(old(vm).heap@, g) is Ctx,
    ensures
        final(vm).wf(),
        final(vm).global_context == old(vm).global_context,
        ({
            let g = final(vm).global_context->Some_0;
            let t = object(final(vm).heap@, g)->Ctx_0.vars@;
            &&& object(final(vm).heap@, g) is Ctx
            &&& table_get(t, "str"@) == Some(Var { ptr: old(vm).heap@.len() as usize })
            &&& object(final(vm).heap@, Var { ptr: old(vm).heap@.len() as usize }) matches Value::Method(m)
                && m.name@ == "str"@ && exists|u: Seq<char>| uuid_v4_text(u) && m.uukey@ == method_key(u)
            &&& forall|n: Seq<char>| n != "str"@ ==> table_get(t, n) == table_get(object(old(vm).heap@, g)->Ctx_0.vars@, n)
        }),
{
    let g = vm.get_context();
    let m = Method::new(Some("str".to_owned()));
    let ghost h0 = vm.heap@;
    let v = vm.alloc_value(Value::Method(m));
    proof {
        assert(vm.heap@.drop_last() =~= h0);
        crate::vm::ctx::lemma_push_wf(*old(vm), *vm);
        assert(vm.heap@[g.ptr as int] == h0[g.ptr as int]);
    }
    let ghost h1 = vm.heap@;
    let _ = def(vm, g, "str", v);
    proof {
        assert(vm.heap@[v.ptr as int] == h1[v.ptr as int]);
    }
}

} // verus!
