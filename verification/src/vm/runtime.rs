use vstd::prelude::*;
use crate::prelude::objects::undef::Undef;
use crate::table::{table_unique, Entry};
use crate::var::{Value, Var, VarPtr};
use crate::var::ctor::Ctors;
use crate::vm::ctx::{Ctx, Void};
use crate::vm::heap::{live, object, Heap, Mark};
use crate::vm::signal::{Abort, ErrSignal, Signal};
use crate::vm::env::Env;
use crate::vm::{ctx, CtxType, ToRun};
use crate::var::meta::def;
use crate::prelude::objects::undef;
use crate::table::table_get;
use crate::var::meta::{found, lookup, resolvable, Found};

verus! {

/// The state of the id allocator: ids handed back, to be reused last-in first-out, and the
/// next id never handed out.
pub struct IdState {
    pub stack: Seq<usize>,
    pub counter: nat,
}

/// The ids handed out and not handed back.
pub open spec fn outstanding(st: IdState) -> Set<int> {
    Set::new(|i: int| 1 <= i < st.counter && !(exists|k: int| 0 <= k < st.stack.len() && st.stack[k] == i))
}

/// The allocator's state is consistent: every id handed back was handed out, once.
pub open spec fn ids_wf(st: IdState) -> bool {
    &&& st.counter >= 1
    &&& forall|k: int| 0 <= k < st.stack.len() ==> 1 <= #[trigger] st.stack[k] < st.counter
    &&& forall|a: int, b: int| 0 <= a < b < st.stack.len() ==> st.stack[a] != st.stack[b]
}

/// Handing out an id: the last one handed back, else a new one.
pub open spec fn issue(st: IdState) -> (IdState, int) {
    if st.stack.len() > 0 {
        (IdState { stack: st.stack.drop_last(), counter: st.counter }, st.stack.last() as int)
    } else {
        (IdState { stack: st.stack, counter: st.counter + 1 }, st.counter as int)
    }
}

/// Handing an id back.
pub open spec fn give_back(st: IdState, id: usize) -> IdState {
    IdState { stack: st.stack.push(id), counter: st.counter }
}

/// The objects every table on the heap binds are bound under distinct names.
pub open spec fn value_wf(v: Value) -> bool {
    match v {
        Value::Ctx(c) => table_unique(c.vars@),
        Value::Module(m) => table_unique(m.exports@),
        Value::Object(o) => table_unique(o.this@),
        _ => true,
    }
}

pub open spec fn heap_wf(h: Seq<Option<VarPtr>>) -> bool {
    forall|i: int| 0 <= i < h.len() && #[trigger] h[i] is Some ==> value_wf(h[i]->Some_0.value)
}

/// The state of an interpreter: its id allocator, its heap, the global scope, the undefined
/// value and the types' constructor objects.
pub struct Vm {
    pub id_stack: Vec<usize>,
    pub id_counter: usize,
    pub heap: Heap,
    pub global_context: Option<Var>,
    pub undef: Option<Var>,
    /// The constructor objects made so far, one per type.
    pub ctors: Ctors,
}

impl Vm {
    pub open spec fn ids(&self) -> IdState {
        IdState { stack: self.id_stack@, counter: self.id_counter as nat }
    }

    /// The runtime is usable: its tables are consistent and it has a live undefined value.
    pub open spec fn wf(&self) -> bool {
        &&& heap_wf(self.heap@)
        &&& self.undef matches Some(u) && live(self.heap@, u) && object(self.heap@, u) is Undef
    }

    /// Everything but the heap is as in `other`.
    pub open spec fn same_roots(&self, other: &Vm) -> bool {
        &&& self.id_stack@ == other.id_stack@
        &&& self.id_counter == other.id_counter
        &&& self.global_context == other.global_context
        &&& self.undef == other.undef
        &&& self.ctors == other.ctors
    }

    /// Puts `value` on the heap, marked `New`.
    pub fn alloc_value(&mut self, value: Value) -> (res: Var)
        ensures
            res.ptr == old(self).heap@.len(),
            final(self).heap@ == old(self).heap@.push(Some(VarPtr { mark: Mark::New, value })),
            final(self).same_roots(old(self)),
    {
        self.heap.allocate(VarPtr::new(value))
    }

    /// Hands out an id: the one handed back last, else the next new one.
    pub fn get_id(&mut self) -> (res: usize)
        requires
            old(self).id_stack@.len() > 0 || old(self).id_counter < usize::MAX,
        ensures
            (final(self).ids(), res as int) == issue(old(self).ids()),
            final(self).heap == old(self).heap,
            final(self).global_context == old(self).global_context,
            final(self).undef == old(self).undef,
            final(self).ctors == old(self).ctors,
            ids_wf(old(self).ids()) ==> ids_wf(final(self).ids()),
            ids_wf(old(self).ids()) ==> !outstanding(old(self).ids()).contains(res as int),
            ids_wf(old(self).ids()) ==> outstanding(final(self).ids()) == outstanding(old(self).ids()).insert(res as int),
    {
        proof { lemma_issue_fresh(self.ids()); }
        match self.id_stack.pop() {
            Some(id) => {
                proof { assert(self.id_stack@ =~= old(self).id_stack@.drop_last()); }
                id
            },
            None => {
                let id = self.id_counter;
                self.id_counter = self.id_counter + 1;
                id
            },
        }
    }

    /// Hands an id back for reuse.
    pub fn back_id(&mut self, id: usize)
        ensures
            final(self).ids() == give_back(old(self).ids(), id),
            final(self).heap == old(self).heap,
            final(self).global_context == old(self).global_context,
            final(self).undef == old(self).undef,
            final(self).ctors == old(self).ctors,
    {
        self.id_stack.push(id);
    }

    /// The global scope, made on first use: an empty scope inside a new void object.
    pub fn get_context(&mut self) -> (res: CtxType)
        ensures
            match old(self).global_context {
                Some(g) => {
                    &&& res == g
                    &&& final(self).heap@ == old(self).heap@
                    &&& final(self).same_roots(old(self))
                },
                None => {
                    &&& res.ptr == old(self).heap@.len() + 1
                    &&& final(self).heap@.len() == old(self).heap@.len() + 2
                    &&& final(self).heap@.drop_last().drop_last() == old(self).heap@
                    &&& final(self).heap@[old(self).heap@.len() as int] == Some(VarPtr { mark: Mark::New, value: Value::Void(Void()) })
                    &&& ctx::empty_scope(final(self).heap@.last(), Var { ptr: old(self).heap@.len() as usize })
                    &&& final(self).global_context == Some(res)
                    &&& final(self).undef == old(self).undef
                    &&& final(self).ctors == old(self).ctors
                    &&& final(self).ids() == old(self).ids()
                },
            },
            heap_wf(old(self).heap@) ==> heap_wf(final(self).heap@),
            old(self).wf() ==> final(self).wf(),
    {
        match self.global_context {
            Some(g) => g,
            None => {
                let v = ctx::void_ctx(self);
                let ghost mid = self.heap@;
                let g = ctx::default(self, v);
                self.global_context = Some(g);
                proof {
                    assert(self.heap@.drop_last().drop_last() =~= old(self).heap@);
                    assert(self.heap@[old(self).heap@.len() as int] == self.heap@.drop_last()[old(self).heap@.len() as int]);
                    assert(mid[old(self).heap@.len() as int] == Some(VarPtr { mark: Mark::New, value: Value::Void(Void()) }));
                }
                g
            },
        }
    }

    /// A fresh runtime: the global scope inside a void object, binding `undef` to the
    /// undefined value.
    pub fn new() -> (res: ErrSignal<Vm>)
        ensures
            res matches Ok(vm) && vm.wf() && fresh_runtime(vm),
    {
        let vm = Vm {
            id_stack: Vec::new(),
            id_counter: 1,
            heap: Heap::new(),
            global_context: None,
            undef: None,
            ctors: Ctors::none(),
        };
        Self::init(vm)
    }

    fn init(vm: Vm) -> (res: ErrSignal<Vm>)
        requires
            vm.heap@.len() == 0,
            vm.global_context is None,
            vm.id_stack@.len() == 0,
            vm.id_counter == 1,
            vm.ctors == Ctors::spec_none(),
        ensures
            res matches Ok(vm) && vm.wf() && fresh_runtime(vm),
    {
        let mut vm = vm;
        let g = vm.get_context();
        let _env = Env::new(g);
        let g = vm.get_context();
        let u = undef::new(&mut vm);
        proof {
            assert(vm.heap@[1] == vm.heap@.drop_last()[1]);
            assert(heap_wf(vm.heap@)) by {
                assert forall|i: int| 0 <= i < vm.heap@.len() && #[trigger] vm.heap@[i] is Some implies value_wf(vm.heap@[i]->Some_0.value) by {
                    if i == 1 { assert(vm.heap@[1]->Some_0.value->Ctx_0.vars@ =~= Seq::<Entry>::empty()); }
                }
            }
        }
        let ghost before = vm.heap@;
        match def(&mut vm, g, "undef", u) {
            Ok(v) => {
                vm.undef = Some(v);
                proof {
                    assert(vm.heap@[2] == before[2]);
                    assert(vm.heap@[0] == before[0]);
                    let t0 = before[1]->Some_0.value->Ctx_0.vars@;
                    assert forall|n: Seq<char>| table_get(t0, n) is None by {}
                    assert(vm.id_stack@ =~= Seq::<usize>::empty());
                }
                Ok(vm)
            },
            Err(_) => {
                proof { assert(false); }
                Ok(vm)
            },
        }
    }

    /// Running code is not available yet: always the error saying so.
    pub fn run_code(&self, _func: ToRun) -> (res: Signal)
        ensures
            res matches Err(Abort::ThrowString(s)) && s@ == "not implemented yet(Vm::run_code)"@,
    {
        Err(Abort::ThrowString("not implemented yet(Vm::run_code)".to_owned()))
    }

    /// The undefined value.
    pub fn undef(&self) -> (res: Signal)
        requires
            self.undef is Some,
        ensures
            res == Ok::<Var, Abort>(self.undef->Some_0),
    {
        Ok(self.undef.unwrap())
    }
}

/// What `Vm::new` builds: a void object, the global scope inside it binding `undef` and
/// nothing else, and the undefined value; all three new to the collector.
pub open spec fn fresh_runtime(vm: Vm) -> bool {
    &&& vm.heap@.len() == 3
    &&& vm.heap@[0] == Some(VarPtr { mark: Mark::New, value: Value::Void(Void()) })
    &&& vm.heap@[1] is Some && vm.heap@[1]->Some_0.mark == Mark::New
    &&& vm.heap@[1]->Some_0.value is Ctx
    &&& vm.heap@[1]->Some_0.value->Ctx_0.upper == Var { ptr: 0 }
    &&& forall|n: Seq<char>| table_get(vm.heap@[1]->Some_0.value->Ctx_0.vars@, n)
        == if n == "undef"@ { Some(Var { ptr: 2 }) } else { None }
    &&& vm.heap@[2] == Some(VarPtr { mark: Mark::New, value: Value::Undef(Undef()) })
    &&& vm.global_context == Some(Var { ptr: 1 })
    &&& vm.undef == Some(Var { ptr: 2 })
    &&& vm.ids() == IdState { stack: Seq::empty(), counter: 1 }
    &&& vm.ctors == Ctors::spec_none()
}

/// In a fresh runtime, reading `undef` from the global scope gives the undefined value.
pub proof fn law_fresh_undef(vm: Vm)
    requires
        fresh_runtime(vm),
    ensures
        resolvable(vm.heap@, vm.global_context->Some_0, "undef"@),
        found(vm.heap@, vm.global_context->Some_0, "undef"@) == Found::Bound(vm.undef->Some_0),
{
    let g = vm.global_context->Some_0;
    assert(live(vm.heap@, g));
    assert(lookup(vm.heap@, g, "undef"@, 0) == Found::Bound(vm.undef->Some_0));
    let n = choose|n: nat| !(lookup(vm.heap@, g, "undef"@, n) is Stuck);
    assert(lookup(vm.heap@, g, "undef"@, n) == Found::Bound(vm.undef->Some_0));
}

/// Handing out an id gives one that is not out, and leaves the allocator consistent.
pub proof fn lemma_issue_fresh(st: IdState)
    ensures
        ids_wf(st) ==> ids_wf(issue(st).0),
        ids_wf(st) ==> !outstanding(st).contains(issue(st).1),
        ids_wf(st) ==> outstanding(issue(st).0) == outstanding(st).insert(issue(st).1),
{
    if ids_wf(st) {
        let (st2, id) = issue(st);
        if st.stack.len() > 0 {
            let last = st.stack.last();
            assert(st.stack[st.stack.len() - 1] == last);
            assert forall|i: int| outstanding(st2).contains(i) <==> outstanding(st).insert(id).contains(i) by {
                if i == id {
                    assert forall|k: int| 0 <= k < st2.stack.len() implies st2.stack[k] != last by {
                        assert(st.stack[k] != st.stack[st.stack.len() - 1]);
                    }
                } else if 1 <= i < st.counter {
                    if exists|k: int| 0 <= k < st.stack.len() && st.stack[k] == i {
                        let k = choose|k: int| 0 <= k < st.stack.len() && st.stack[k] == i;
                        assert(k != st.stack.len() - 1);
                        assert(st2.stack[k] == i);
                    }
                    if exists|k: int| 0 <= k < st2.stack.len() && st2.stack[k] == i {
                        let k = choose|k: int| 0 <= k < st2.stack.len() && st2.stack[k] == i;
                        assert(st.stack[k] == i);
                    }
                }
            }
            assert(outstanding(st2) =~= outstanding(st).insert(id));
        } else {
            assert(outstanding(st2) =~= outstanding(st).insert(id));
        }
    }
}

/// Handing an id back and asking for one gives that id back, and the allocator returns to
/// the state it had before.
pub proof fn lemma_back_then_get(st: IdState, id: usize)
    ensures
        issue(give_back(st, id)) == (st, id as int),
{
    assert(give_back(st, id).stack.drop_last() =~= st.stack);
}

} // verus!
