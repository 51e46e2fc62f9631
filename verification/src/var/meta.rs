use vstd::prelude::*;
use crate::prelude::objects::module::module_name;
use crate::table::{table_get, table_lookup, table_unique};
use crate::text::{debug_str, debug_text, push_str};
use crate::var::{spec_type_name, value_type_name, Value, Var};
use crate::vm::error::{def_undefable, def_undefable_text, set_unsetable, set_unsetable_text, throw, throws};
use crate::vm::heap::{live, object, rebound, table_of};
use crate::vm::runtime::{heap_wf, value_wf, Vm};
use crate::vm::signal::{Abort, Signal};

verus! {

/// Where reading a name from an object leads.
pub enum Found {
    /// The name is bound to this object.
    Bound(Var),
    /// The lookup ran past the outermost scope.
    NoScope,
    /// The object has no such property: the read gives the undefined value.
    Plain,
    /// The lookup reached a freed slot, or did not end within the fuel given.
    Stuck,
}

/// Reading `name` from the object `v`: a scope looks in its own bindings and then in the
/// scope around it; a module looks in its exports; the void object fails; any other object
/// has no properties.
pub open spec fn lookup(h: Seq<Option<crate::var::VarPtr>>, v: Var, name: Seq<char>, fuel: nat) -> Found
    decreases fuel,
{
    if !live(h, v) {
        Found::Stuck
    } else {
        match object(h, v) {
            Value::Ctx(c) => match table_get(c.vars@, name) {
                Some(x) => Found::Bound(x),
                None => if fuel == 0 { Found::Stuck } else { lookup(h, c.upper, name, (fuel - 1) as nat) },
            },
            Value::Module(m) => match table_get(m.exports@, name) {
                Some(x) => Found::Bound(x),
                None => Found::Plain,
            },
            Value::Void(_) => Found::NoScope,
            _ => Found::Plain,
        }
    }
}

/// Reading `name` from `v` ends, without touching a freed slot.
pub open spec fn resolvable(h: Seq<Option<crate::var::VarPtr>>, v: Var, name: Seq<char>) -> bool {
    exists|n: nat| !(lookup(h, v, name, n) is Stuck)
}

/// Where reading `name` from `v` leads.
pub open spec fn found(h: Seq<Option<crate::var::VarPtr>>, v: Var, name: Seq<char>) -> Found {
    lookup(h, v, name, choose|n: nat| !(lookup(h, v, name, n) is Stuck))
}

pub open spec fn get_void_text(name: Seq<char>) -> Seq<char> {
    "Error(get "@ + debug_text(name) + " from undef_ctx):没有作用域了"@
}

pub open spec fn def_void_text(name: Seq<char>) -> Seq<char> {
    "Error(def "@ + debug_text(name) + " to undef_ctx):没有作用域了 (from undef_ctx)"@
}

pub open spec fn set_void_text(name: Seq<char>) -> Seq<char> {
    "Error(set "@ + debug_text(name) + " to undef_ctx):没有作用域了 (from undef_ctx)"@
}

pub open spec fn module_defined_text(name: Seq<char>, module: Seq<char>) -> Seq<char> {
    name + " is already defined in module "@ + module
}

/// What reading `name` from `v` gives.
pub open spec fn get_outcome(vm: Vm, v: Var, name: Seq<char>, res: Signal) -> bool {
    match found(vm.heap@, v, name) {
        Found::Bound(x) => res == Ok::<Var, Abort>(x),
        Found::Plain => res == Ok::<Var, Abort>(vm.undef->Some_0),
        Found::NoScope => res matches Err(Abort::ThrowString(s)) && s@ == get_void_text(name),
        Found::Stuck => false,
    }
}

/// Reads property `name` of the object `var`.
pub fn get(vm: &Vm, var: Var, name: &str) -> (res: Signal)
    requires
        vm.wf(),
        resolvable(vm.heap@, var, name@),
    ensures
        get_outcome(*vm, var, name@, res),
{
    let ghost h = vm.heap@;
    let ghost n0 = choose|n: nat| !(lookup(h, var, name@, n) is Stuck);
    let mut cur = var;
    let ghost mut fuel = n0;
    loop
        invariant
            h == vm.heap@,
            vm.wf(),
            lookup(h, cur, name@, fuel) == found(h, var, name@),
            !(lookup(h, cur, name@, fuel) is Stuck),
        decreases fuel,
    {
        proof { assert(h[cur.ptr as int] is Some); }
        match vm.heap.value(cur) {
            Value::Ctx(c) => {
                proof { assert(value_wf(object(h, cur))); }
                match table_lookup(&c.vars, name) {
                    Some(x) => {
                        proof { assert(lookup(h, cur, name@, fuel) == Found::Bound(x)); }
                        return Ok(x);
                    },
                    None => {
                        cur = c.upper;
                        proof { fuel = (fuel - 1) as nat; }
                    },
                }
            },
            Value::Module(m) => {
                proof { assert(value_wf(object(h, cur))); }
                match table_lookup(&m.exports, name) {
                    Some(x) => { return Ok(x); },
                    None => { return vm.undef(); },
                }
            },
            Value::Void(_) => {
                let mut s = String::new();
                push_str(&mut s, "Error(get ");
                let q = debug_str(name);
                push_str(&mut s, q.as_str());
                push_str(&mut s, " from undef_ctx):没有作用域了");
                return Err(Abort::ThrowString(s));
            },
            _ => {
                proof { assert(lookup(h, cur, name@, fuel) == Found::Plain); }
                return vm.undef();
            },
        }
    }
}

/// Reading `name` from `v` ends, without touching a freed slot, within fewer than `bound`
/// steps from one scope to the scope around it.
pub open spec fn resolvable_within(h: Seq<Option<crate::var::VarPtr>>, v: Var, name: Seq<char>, bound: nat) -> bool {
    exists|n: nat| n < bound && !(#[trigger] lookup(h, v, name, n) is Stuck)
}

/// Whether reading `name` from `var` is known to end: the scopes on the way are followed for
/// at most as many steps as the heap has slots. `true` exactly where the read ends within
/// that many steps; `false` where it reaches a freed slot or needs more steps.
pub fn resolves(vm: &Vm, var: Var, name: &str) -> (res: bool)
    requires
        heap_wf(vm.heap@),
    ensures
        res == resolvable_within(vm.heap@, var, name@, vm.heap@.len()),
        res ==> resolvable(vm.heap@, var, name@),
{
    let ghost h = vm.heap@;
    let limit = vm.heap.slots.len();
    let mut cur = var;
    let mut steps: usize = 0;
    while steps < limit
        invariant
            h == vm.heap@,
            heap_wf(h),
            forall|n: nat| #[trigger] lookup(h, var, name@, (n + steps) as nat) == lookup(h, cur, name@, n),
            limit == h.len(),
            steps <= limit,
            forall|k: nat| k < steps ==> #[trigger] lookup(h, var, name@, k) is Stuck,
        decreases limit - steps,
    {
        if !vm.heap.is_live(cur) {
            proof {
                assert forall|k: nat| k < h.len() implies #[trigger] lookup(h, var, name@, k) is Stuck by {
                    if k >= steps {
                        let m: nat = (k - steps) as nat;
                        assert(lookup(h, var, name@, (m + steps) as nat) == lookup(h, cur, name@, m));
                        assert((m + steps) as nat == k);
                    }
                }
            }
            return false;
        }
        proof { assert(h[cur.ptr as int] is Some); assert(value_wf(object(h, cur))); }
        match vm.heap.value(cur) {
            Value::Ctx(c) => {
                match table_lookup(&c.vars, name) {
                    Some(_) => {
                        proof {
                            assert(!(lookup(h, var, name@, (0 + steps) as nat) is Stuck));
                            assert((0 + steps) as nat == steps as nat);
                        }
                        return true;
                    },
                    None => {
                        proof {
                            assert(lookup(h, var, name@, (0 + steps) as nat) == lookup(h, cur, name@, 0));
                            assert((0 + steps) as nat == steps as nat);
                            assert(lookup(h, var, name@, steps as nat) is Stuck);
                            assert forall|k: nat| k < steps + 1 implies #[trigger] lookup(h, var, name@, k) is Stuck by {
                                if k < steps { } else { assert(k == steps as nat); }
                            }
                            assert forall|n: nat| #[trigger] lookup(h, var, name@, (n + (steps + 1)) as nat) == lookup(h, c.upper, name@, n) by {
                                assert(lookup(h, var, name@, ((n + 1) + steps) as nat) == lookup(h, cur, name@, (n + 1) as nat));
                            }
                        }
                        cur = c.upper;
                        steps = steps + 1;
                    },
                }
            },
            _ => {
                proof {
                    assert(!(lookup(h, var, name@, (0 + steps) as nat) is Stuck));
                    assert((0 + steps) as nat == steps as nat);
                }
                return true;
            },
        }
    }
    false
}

/// Whether the object `var` has property `name` of its own.
pub open spec fn spec_has(v: Value, name: Seq<char>) -> bool {
    match v {
        Value::Ctx(c) => table_get(c.vars@, name) is Some,
        Value::Module(m) => table_get(m.exports@, name) is Some,
        _ => false,
    }
}

/// Whether the object `var` has property `name` of its own: a scope binds it itself, a
/// module exports it; no other object has properties of its own.
pub fn has(vm: &Vm, var: Var, name: &str) -> (res: bool)
    requires
        vm.wf(),
        live(vm.heap@, var),
    ensures
        res == spec_has(object(vm.heap@, var), name@),
{
    proof { assert(vm.heap@[var.ptr as int] is Some); assert(value_wf(object(vm.heap@, var))); }
    match vm.heap.value(var) {
        Value::Ctx(c) => table_lookup(&c.vars, name).is_some(),
        Value::Module(m) => table_lookup(&m.exports, name).is_some(),
        _ => false,
    }
}
/// A scope or a module has a property of its own exactly when reading the name from it finds
/// a binding right there, without looking further out.
pub proof fn law_has_own(h: Seq<Option<crate::var::VarPtr>>, v: Var, name: Seq<char>)
    requires
        live(h, v),
        object(h, v) is Ctx || object(h, v) is Module,
    ensures
        spec_has(object(h, v), name) <==> lookup(h, v, name, 0) is Bound,
        spec_has(object(h, v), name) <==> table_get(table_of(object(h, v)), name) is Some,
{
}

/// Right after a name is defined on a scope or a module, the object has it as its own.
pub proof fn law_def_then_has(old: Vm, new: Vm, var: Var, name: Seq<char>, value: Var, r: Signal)
    requires
        live(old.heap@, var),
        object(old.heap@, var) is Ctx || object(old.heap@, var) is Module,
        def_outcome(old, new, var, name, value, r),
        r is Ok,
    ensures
        live(new.heap@, var),
        spec_has(object(new.heap@, var), name),
{
}


pub proof fn lemma_bound_here(h: Seq<Option<crate::var::VarPtr>>, var: Var, name: Seq<char>, value: Var)
    requires
        live(h, var),
        object(h, var) is Ctx || object(h, var) is Module,
        table_get(table_of(object(h, var)), name) == Some(value),
    ensures
        resolvable(h, var, name),
        found(h, var, name) == Found::Bound(value),
{
    assert(lookup(h, var, name, 0) == Found::Bound(value));
    let n = choose|n: nat| !(lookup(h, var, name, n) is Stuck);
    assert(lookup(h, var, name, n) == Found::Bound(value));
}

/// Reading a name right after defining it on a scope, or on a module that did not export it
/// yet, gives the object it was defined as.
pub proof fn law_def_then_get(old: Vm, new: Vm, var: Var, name: Seq<char>, value: Var, r: Signal)
    requires
        live(old.heap@, var),
        object(old.heap@, var) is Ctx
            || (object(old.heap@, var) matches Value::Module(m) && table_get(m.exports@, name) is None),
        def_outcome(old, new, var, name, value, r),
    ensures
        r == Ok::<Var, Abort>(value),
        resolvable(new.heap@, var, name),
        found(new.heap@, var, name) == Found::Bound(value),
{
    lemma_bound_here(new.heap@, var, name, value);
}

/// Defining a name a module already exports fails, and changes nothing.
pub proof fn law_module_no_redefine(old: Vm, new: Vm, var: Var, name: Seq<char>, value: Var, r: Signal)
    requires
        object(old.heap@, var) matches Value::Module(m) && table_get(m.exports@, name) is Some,
        def_outcome(old, new, var, name, value, r),
    ensures
        new == old,
        r is Err,
{
}

/// Reading a name right after writing it, on a scope that binds it itself or on a module,
/// gives the object written.
pub proof fn law_set_then_get(old: Vm, new: Vm, var: Var, name: Seq<char>, value: Var, r: Signal)
    requires
        live(old.heap@, var),
        (object(old.heap@, var) matches Value::Ctx(c) && table_get(c.vars@, name) is Some)
            || object(old.heap@, var) is Module,
        set_outcome(old, new, var, name, value, r),
    ensures
        r == Ok::<Var, Abort>(value),
        resolvable(new.heap@, var, name),
        found(new.heap@, var, name) == Found::Bound(value),
{
    lemma_bound_here(new.heap@, var, name, value);
}

/// Reading `name` from `v`, with `fuel` steps, never looks at the object `x`.
pub open spec fn avoids(h: Seq<Option<crate::var::VarPtr>>, v: Var, x: Var, name: Seq<char>, fuel: nat) -> bool
    decreases fuel,
{
    &&& v != x
    &&& live(h, v) ==> match object(h, v) {
        Value::Ctx(c) => table_get(c.vars@, name) is None && fuel > 0 ==> avoids(h, c.upper, x, name, (fuel - 1) as nat),
        _ => true,
    }
}

proof fn lemma_lookup_elsewhere(old: Seq<Option<crate::var::VarPtr>>, new: Seq<Option<crate::var::VarPtr>>, x: Var, name: Seq<char>,
    value: Var, v: Var, fuel: nat)
    requires
        rebound(old, new, x, name, value),
        live(old, x),
        avoids(old, v, x, name, fuel),
    ensures
        lookup(new, v, name, fuel) == lookup(old, v, name, fuel),
    decreases fuel,
{
    if v.ptr < old.len() && v.ptr != x.ptr {
        assert(new[v.ptr as int] == old[v.ptr as int]);
    }
    if v.ptr == x.ptr {
        assert(v != x);
        assert(false);
    }
    if live(old, v) {
        match object(old, v) {
            Value::Ctx(c) => {
                if table_get(c.vars@, name) is None && fuel > 0 {
                    lemma_lookup_elsewhere(old, new, x, name, value, c.upper, (fuel - 1) as nat);
                }
            },
            _ => {},
        }
    }
}

/// Defining a name on one scope changes no read that never looks at that scope: what any
/// other object reads for the name, through scopes that do not include it, stays the same.
pub proof fn law_def_elsewhere(old: Vm, new: Vm, x: Var, name: Seq<char>, value: Var, r: Signal, v: Var, fuel: nat)
    requires
        live(old.heap@, x),
        object(old.heap@, x) is Ctx,
        def_outcome(old, new, x, name, value, r),
        avoids(old.heap@, v, x, name, fuel),
    ensures
        lookup(new.heap@, v, name, fuel) == lookup(old.heap@, v, name, fuel),
{
    lemma_lookup_elsewhere(old.heap@, new.heap@, x, name, value, v, fuel);
}

/// What a write to an object needs to know of it.
enum Target {
    Scope(Var, bool),
    Mod(bool, String),
    Nothing,
    Other(&'static str),
}

fn target(vm: &Vm, var: Var, name: &str) -> (res: Target)
    requires
        heap_wf(vm.heap@),
        live(vm.heap@, var),
    ensures
        match object(vm.heap@, var) {
            Value::Ctx(c) => res == Target::Scope(c.upper, table_get(c.vars@, name@) is Some),
            Value::Module(m) => res matches Target::Mod(b, n) && b == (table_get(m.exports@, name@) is Some)
                && n@ == module_name(m, var),
            Value::Void(_) => res is Nothing,
            v => res matches Target::Other(t) && t@ == spec_type_name(v),
        },
{
    proof { assert(vm.heap@[var.ptr as int] is Some); assert(value_wf(object(vm.heap@, var))); }
    let v = vm.heap.value(var);
    match v {
        Value::Ctx(c) => Target::Scope(c.upper, table_lookup(&c.vars, name).is_some()),
        Value::Module(m) => Target::Mod(table_lookup(&m.exports, name).is_some(), m.name(var)),
        Value::Void(_) => Target::Nothing,
        _ => Target::Other(value_type_name(v)),
    }
}

proof fn lemma_rebound_wf(old: Vm, new: Vm, v: Var, name: Seq<char>, value: Var)
    requires
        heap_wf(old.heap@),
        live(old.heap@, v),
        rebound(old.heap@, new.heap@, v, name, value),
        new.same_roots(&old),
    ensures
        heap_wf(new.heap@),
        old.wf() ==> new.wf(),
{
    assert(value_wf(object(new.heap@, v)));
    if old.wf() {
        let u = old.undef->Some_0;
        assert(old.heap@[u.ptr as int] is Some);
        assert(u.ptr != v.ptr);
        assert(new.heap@[u.ptr as int] == old.heap@[u.ptr as int]);
    }
    assert forall|i: int| 0 <= i < new.heap@.len() && #[trigger] new.heap@[i] is Some implies value_wf(new.heap@[i]->Some_0.value) by {
        if i != v.ptr {
            assert(new.heap@[i] == old.heap@[i]);
        }
    }
}

pub proof fn lemma_throws_keeps(old: Vm, new: Vm, a: Abort, msg: Seq<char>)
    requires
        heap_wf(old.heap@),
        throws(old, new, a, msg),
    ensures
        heap_wf(new.heap@),
        old.wf() ==> new.wf(),
        forall|w: Var| live(old.heap@, w) ==> live(new.heap@, w) && object(new.heap@, w) == object(old.heap@, w),
{
    assert forall|i: int| 0 <= i < new.heap@.len() && #[trigger] new.heap@[i] is Some implies value_wf(new.heap@[i]->Some_0.value) by {
        if i < old.heap@.len() {
            assert(new.heap@[i] == new.heap@.drop_last()[i]);
        }
    }
    if old.wf() {
        let u = old.undef->Some_0;
        assert(new.heap@[u.ptr as int] == new.heap@.drop_last()[u.ptr as int]);
    }
    assert forall|w: Var| live(old.heap@, w) implies live(new.heap@, w) && object(new.heap@, w) == object(old.heap@, w) by {
        assert(new.heap@[w.ptr as int] == new.heap@.drop_last()[w.ptr as int]);
    }
}

/// What defining `name` as `value` on the object `var` does.
pub open spec fn def_outcome(old: Vm, new: Vm, var: Var, name: Seq<char>, value: Var, res: Signal) -> bool {
    match object(old.heap@, var) {
        Value::Ctx(_) => {
            &&& rebound(old.heap@, new.heap@, var, name, value)
            &&& new.same_roots(&old)
            &&& res == Ok::<Var, Abort>(value)
        },
        Value::Module(m) => if table_get(m.exports@, name) is Some {
            &&& new == old
            &&& res matches Err(Abort::ThrowString(s)) && s@ == module_defined_text(name, module_name(m, var))
        } else {
            rebound(old.heap@, new.heap@, var, name, value) && new.same_roots(&old) && res == Ok::<Var, Abort>(value)
        },
        Value::Void(_) => res matches Err(a) && throws(old, new, a, def_void_text(name)),
        v => res matches Err(a) && throws(old, new, a, def_undefable_text(spec_type_name(v), name)),
    }
}

/// Defines property `name` of the object `var` as `value`: a scope binds it in itself, a
/// module exports it unless it already does; the void object and every other object refuse.
pub fn def(vm: &mut Vm, var: Var, name: &str, value: Var) -> (res: Signal)
    requires
        heap_wf(old(vm).heap@),
        live(old(vm).heap@, var),
    ensures
        def_outcome(*old(vm), *final(vm), var, name@, value, res),
        heap_wf(final(vm).heap@),
        old(vm).wf() ==> final(vm).wf(),
{
    match target(vm, var, name) {
        Target::Scope(_, _) => {
            proof { assert(value_wf(object(vm.heap@, var))); }
            vm.heap.rebind(var, name, value);
            proof { lemma_rebound_wf(*old(vm), *vm, var, name@, value); }
            Ok(value)
        },
        Target::Mod(defined, mname) => {
            if defined {
                let mut s = String::new();
                push_str(&mut s, name);
                push_str(&mut s, " is already defined in module ");
                push_str(&mut s, mname.as_str());
                Err(Abort::ThrowString(s))
            } else {
                proof { assert(value_wf(object(vm.heap@, var))); }
                vm.heap.rebind(var, name, value);
                proof { lemma_rebound_wf(*old(vm), *vm, var, name@, value); }
                Ok(value)
            }
        },
        Target::Nothing => {
            let mut s = String::new();
            push_str(&mut s, "Error(def ");
            let q = debug_str(name);
            push_str(&mut s, q.as_str());
            push_str(&mut s, " to undef_ctx):没有作用域了 (from undef_ctx)");
            let a = throw(vm, s.as_str());
            proof { lemma_throws_keeps(*old(vm), *vm, a, s@); }
            Err(a)
        },
        Target::Other(t) => {
            let a = def_undefable(vm, t, name);
            proof { lemma_throws_keeps(*old(vm), *vm, a, def_undefable_text(t@, name@)); }
            Err(a)
        },
    }
}

/// A write to `name` on `var` can be carried out: where a scope does not bind the name
/// itself, reading it from the scope around ends.
pub open spec fn settable(h: Seq<Option<crate::var::VarPtr>>, var: Var, name: Seq<char>) -> bool {
    match object(h, var) {
        Value::Ctx(c) => table_get(c.vars@, name) is None ==> resolvable(h, c.upper, name),
        _ => true,
    }
}

/// What writing `value` to property `name` of the object `var` does.
pub open spec fn set_outcome(old: Vm, new: Vm, var: Var, name: Seq<char>, value: Var, res: Signal) -> bool {
    match object(old.heap@, var) {
        Value::Ctx(c) => if table_get(c.vars@, name) is Some {
            rebound(old.heap@, new.heap@, var, name, value) && new.same_roots(&old) && res == Ok::<Var, Abort>(value)
        } else {
            new == old && get_outcome(old, c.upper, name, res)
        },
        Value::Module(_) => rebound(old.heap@, new.heap@, var, name, value) && new.same_roots(&old)
            && res == Ok::<Var, Abort>(value),
        Value::Void(_) => res matches Err(a) && throws(old, new, a, set_void_text(name)),
        v => res matches Err(a) && throws(old, new, a, set_unsetable_text(spec_type_name(v), name)),
    }
}

/// Writes `value` to property `name` of the object `var`: a scope that binds the name itself
/// rebinds it, and otherwise answers with what the scope around reads for the name, changing
/// nothing; a module exports the value under the name; the void object and every other
/// object refuse.
pub fn set(vm: &mut Vm, var: Var, name: &str, value: Var) -> (res: Signal)
    requires
        old(vm).wf(),
        live(old(vm).heap@, var),
        settable(old(vm).heap@, var, name@),
    ensures
        set_outcome(*old(vm), *final(vm), var, name@, value, res),
        final(vm).wf(),
{
    match target(vm, var, name) {
        Target::Scope(upper, local) => {
            if local {
                proof { assert(value_wf(object(vm.heap@, var))); }
                vm.heap.rebind(var, name, value);
                proof { lemma_rebound_wf(*old(vm), *vm, var, name@, value); }
                Ok(value)
            } else {
                get(vm, upper, name)
            }
        },
        Target::Mod(_, _) => {
            proof { assert(value_wf(object(vm.heap@, var))); }
            vm.heap.rebind(var, name, value);
            proof { lemma_rebound_wf(*old(vm), *vm, var, name@, value); }
            Ok(value)
        },
        Target::Nothing => {
            let mut s = String::new();
            push_str(&mut s, "Error(set ");
            let q = debug_str(name);
            push_str(&mut s, q.as_str());
            push_str(&mut s, " to undef_ctx):没有作用域了 (from undef_ctx)");
            let a = throw(vm, s.as_str());
            proof { lemma_throws_keeps(*old(vm), *vm, a, s@); }
            Err(a)
        },
        Target::Other(t) => {
            let a = set_unsetable(vm, t, name);
            proof { lemma_throws_keeps(*old(vm), *vm, a, set_unsetable_text(t@, name@)); }
            Err(a)
        },
    }
}

} // verus!
