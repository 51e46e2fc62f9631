use vstd::prelude::*;
use crate::var::{Value, Var, VarPtr};
use crate::table::{table_get, table_insert, table_unique, Entry};

verus! {

/// The collector's mark on a heap object.
#[derive(Clone, Copy, PartialEq, Eq, Structural, Debug)]
pub enum Mark {
    Marked,
    Unmarked,
    New,
}

/// The objects of a runtime; a `Var` is the index of its slot. A freed slot holds `None`.
pub struct Heap {
    pub slots: Vec<Option<VarPtr>>,
}

/// Whether `v` names a slot that holds an object.
pub open spec fn live(h: Seq<Option<VarPtr>>, v: Var) -> bool {
    v.ptr < h.len() && h[v.ptr as int] is Some
}

/// The object in the slot of `v`.
pub open spec fn object(h: Seq<Option<VarPtr>>, v: Var) -> Value {
    h[v.ptr as int]->Some_0.value
}

impl Heap {
    pub open spec fn view(&self) -> Seq<Option<VarPtr>> {
        self.slots@
    }

    pub fn new() -> (res: Self)
        ensures
            res@.len() == 0,
    {
        Heap { slots: Vec::new() }
    }

    /// Puts `var` in a new slot at the end of the heap and returns its handle.
    pub fn allocate(&mut self, var: VarPtr) -> (res: Var)
        ensures
            res.ptr == old(self)@.len(),
            final(self)@ == old(self)@.push(Some(var)),
    {
        let ptr = self.slots.len();
        self.slots.push(Some(var));
        Var { ptr }
    }

    /// The object that `v` names.
    pub fn value(&self, v: Var) -> (res: &Value)
        requires
            live(self@, v),
        ensures
            *res == object(self@, v),
    {
        match &self.slots[v.ptr] {
            Some(p) => &p.value,
            None => { proof { assert(false); } &self.slots[v.ptr].as_ref().unwrap().value },
        }
    }

    /// Whether `v` names a live object.
    pub fn is_live(&self, v: Var) -> (res: bool)
        ensures
            res == live(self@, v),
    {
        v.ptr < self.slots.len() && self.slots[v.ptr].is_some()
    }
}

/// The name table of a scope, a module or a plain object.
pub open spec fn table_of(v: Value) -> Seq<Entry> {
    match v {
        Value::Ctx(c) => c.vars@,
        Value::Module(m) => m.exports@,
        Value::Object(o) => o.this@,
        _ => Seq::empty(),
    }
}

/// Whether an object holds a name table.
pub open spec fn has_table(v: Value) -> bool {
    v is Ctx || v is Module || v is Object
}

/// `b` is `a` with its name table replaced, everything else kept.
pub open spec fn same_shell(a: Value, b: Value) -> bool {
    match a {
        Value::Ctx(c) => b matches Value::Ctx(d) && d.upper == c.upper,
        Value::Module(m) => b matches Value::Module(n) && n.name == m.name,
        Value::Object(_) => b is Object,
        _ => false,
    }
}

/// `new` is `old` with `name` bound to `value` in the table of the object `v`, in place.
pub open spec fn rebound(old: Seq<Option<VarPtr>>, new: Seq<Option<VarPtr>>, v: Var, name: Seq<char>, value: Var) -> bool {
    &&& new.len() == old.len()
    &&& forall|i: int| 0 <= i < old.len() && i != v.ptr ==> new[i] == old[i]
    &&& live(new, v)
    &&& new[v.ptr as int]->Some_0.mark == old[v.ptr as int]->Some_0.mark
    &&& same_shell(object(old, v), object(new, v))
    &&& table_unique(table_of(object(new, v)))
    &&& forall|n: Seq<char>| table_get(table_of(object(new, v)), n) == if n == name { Some(value) } else { table_get(table_of(object(old, v)), n) }
}

impl Heap {
    /// Binds `name` to `value` in the table of the object `v`.
    pub fn rebind(&mut self, v: Var, name: &str, value: Var)
        requires
            live(old(self)@, v),
            has_table(object(old(self)@, v)),
            table_unique(table_of(object(old(self)@, v))),
        ensures
            rebound(old(self)@, final(self)@, v, name@, value),
    {
        let slot = self.slots[v.ptr].take();
        match slot {
            Some(mut p) => {
                match &mut p.value {
                    Value::Ctx(c) => table_insert(&mut c.vars, name, value),
                    Value::Module(m) => table_insert(&mut m.exports, name, value),
                    Value::Object(o) => table_insert(&mut o.this, name, value),
                    _ => {},
                }
                self.slots.set(v.ptr, Some(p));
            },
            None => {},
        }
    }
}

} // verus!
