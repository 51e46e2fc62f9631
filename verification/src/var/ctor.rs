use vstd::prelude::*;
use crate::prelude::objects::func::{pointer_text, Func, Script};
use crate::var::integer::{Int, IntSign};
use crate::var::list::List;
use crate::var::{Value, Var, VarPtr};
use crate::vm::ctx::lemma_push_wf;
use crate::vm::env::Env;
use crate::vm::heap::{live, object, Mark};
use crate::vm::runtime::Vm;

verus! {

/// The types that have a constructor object.
#[derive(Clone, Copy, PartialEq, Eq, Structural, Debug)]
pub enum Make {
    Int,
    Float,
    Str,
    Func,
    List,
}

/// The constructor objects a runtime has made, at most one per type.
#[derive(Clone, Copy, PartialEq, Eq, Structural, Debug)]
pub struct Ctors {
    pub int: Option<Var>,
    pub float: Option<Var>,
    pub string: Option<Var>,
    pub func: Option<Var>,
    pub list: Option<Var>,
}

impl Ctors {
    pub open spec fn spec_none() -> Self {
        Ctors { int: None, float: None, string: None, func: None, list: None }
    }

    /// No constructor object yet.
    pub fn none() -> (res: Self)
        ensures
            res == Self::spec_none(),
    {
        Ctors { int: None, float: None, string: None, func: None, list: None }
    }

    /// The constructor object kept for `k`.
    pub open spec fn slot(self, k: Make) -> Option<Var> {
        match k {
            Make::Int => self.int,
            Make::Float => self.float,
            Make::Str => self.string,
            Make::Func => self.func,
            Make::List => self.list,
        }
    }

    /// These objects with `v` kept for `k`.
    pub open spec fn with(self, k: Make, v: Var) -> Self {
        match k {
            Make::Int => Ctors { int: Some(v), ..self },
            Make::Float => Ctors { float: Some(v), ..self },
            Make::Str => Ctors { string: Some(v), ..self },
            Make::Func => Ctors { func: Some(v), ..self },
            Make::List => Ctors { list: Some(v), ..self },
        }
    }

    fn get(&self, k: Make) -> (res: Option<Var>)
        ensures
            res == self.slot(k),
    {
        match k {
            Make::Int => self.int,
            Make::Float => self.float,
            Make::Str => self.string,
            Make::Func => self.func,
            Make::List => self.list,
        }
    }

    fn put(&mut self, k: Make, v: Var)
        ensures
            *final(self) == old(self).with(k, v),
    {
        match k {
            Make::Int => { self.int = Some(v); },
            Make::Float => { self.float = Some(v); },
            Make::Str => { self.string = Some(v); },
            Make::Func => { self.func = Some(v); },
            Make::List => { self.list = Some(v); },
        }
    }
}

/// The name of the constructor for `k`.
pub open spec fn make_name(k: Make) -> Seq<char> {
    match k {
        Make::Int => "Int"@,
        Make::Float => "Float"@,
        Make::Str => "Str"@,
        Make::Func => "Func"@,
        Make::List => "List"@,
    }
}

pub fn make_name_text(k: Make) -> (res: &'static str)
    ensures
        res@ == make_name(k),
{
    match k {
        Make::Int => "Int",
        Make::Float => "Float",
        Make::Str => "Str",
        Make::Func => "Func",
        Make::List => "List",
    }
}

/// `v` is what the constructor for `k` makes when called with `args` in `env`: the integer
/// zero (for integers and for numbers alike), the empty string, a function with no
/// parameters and no code in the scope of `env`, the list of the arguments.
pub open spec fn made_value(k: Make, env: Env, args: Seq<Var>, v: Value) -> bool {
    match k {
        Make::Int | Make::Float => v matches Value::Int(i) && i.sign == IntSign::NoSign && i.digits@.len() == 0,
        Make::Str => v matches Value::Str(t) && t@.len() == 0,
        Make::Func => v matches Value::Func(Func::Script(s)) && s.code@.len() == 0 && s.args_names@.len() == 0
            && s.ctx == env.spec_ctx() && exists|p: Seq<char>| pointer_text(p) && s.name@ == "lambda@"@ + p,
        Make::List => v matches Value::List(l) && l.data@ == args,
    }
}

/// Calling the constructor for `k` with `args` in `env` put the new object `res` on the heap,
/// and changed nothing else.
pub open spec fn made(old: Vm, new: Vm, k: Make, env: Env, args: Seq<Var>, res: Var) -> bool {
    &&& res.ptr == old.heap@.len()
    &&& new.heap@.len() == old.heap@.len() + 1
    &&& new.heap@.drop_last() == old.heap@
    &&& new.heap@.last() is Some
    &&& new.heap@.last()->Some_0.mark == Mark::New
    &&& made_value(k, env, args, new.heap@.last()->Some_0.value)
    &&& new.same_roots(&old)
}

/// What the constructor for `k` does when called with `args` in `env`.
pub fn make(vm: &mut Vm, k: Make, env: &Env, args: &Vec<Var>) -> (res: Var)
    ensures
        made(*old(vm), *final(vm), k, *env, args@, res),
        old(vm).wf() ==> final(vm).wf(),
{
    let value = match k {
        Make::Int | Make::Float => Value::Int(Int::zero()),
        Make::Str => Value::Str(String::new()),
        Make::Func => Value::Func(Func::Script(Script::new(None, Vec::new(), env.ctx(), Vec::new()))),
        Make::List => Value::List(List::new(args.clone())),
    };
    let r = vm.alloc_value(value);
    proof { assert(vm.heap@.drop_last() =~= old(vm).heap@); lemma_push_wf(*old(vm), *vm); }
    r
}

/// The runtime still holds the constructor object it keeps for `k`.
pub open spec fn kept(vm: Vm, k: Make) -> bool {
    vm.ctors.slot(k) matches Some(c) && live(vm.heap@, c) && object(vm.heap@, c) == Value::Func(Func::Ctor(k))
}

/// What asking the runtime for the constructor object of `k` does.
pub open spec fn ctor_outcome(old: Vm, new: Vm, k: Make, res: Var) -> bool {
    &&& if kept(old, k) {
        res == old.ctors.slot(k)->Some_0 && new == old
    } else {
        &&& res.ptr == old.heap@.len()
        &&& new.heap@ == old.heap@.push(Some(VarPtr { mark: Mark::New, value: Value::Func(Func::Ctor(k)) }))
        &&& new.ctors == old.ctors.with(k, res)
        &&& new.id_stack@ == old.id_stack@
        &&& new.id_counter == old.id_counter
        &&& new.global_context == old.global_context
        &&& new.undef == old.undef
    }
    &&& kept(new, k)
    &&& new.ctors.slot(k) == Some(res)
}

/// The constructor object of `k`: the one the runtime keeps, made and kept on first use, or
/// again where the collector has freed it.
pub fn ctor_of(vm: &mut Vm, k: Make) -> (res: Var)
    ensures
        ctor_outcome(*old(vm), *final(vm), k, res),
        old(vm).wf() ==> final(vm).wf(),
{
    match vm.ctors.get(k) {
        Some(c) => {
            if vm.heap.is_live(c) {
                match vm.heap.value(c) {
                    Value::Func(Func::Ctor(k2)) => {
                        if *k2 == k {
                            return c;
                        }
                    },
                    _ => {},
                }
            }
        },
        None => {},
    }
    let ghost h0 = vm.heap@;
    let c = vm.alloc_value(Value::Func(Func::Ctor(k)));
    proof { assert(vm.heap@.drop_last() =~= old(vm).heap@); lemma_push_wf(*old(vm), *vm); }
    vm.ctors.put(k, c);
    proof {
        assert(vm.heap@[c.ptr as int] == vm.heap@.last());
    }
    c
}

/// Asking for the constructor object of a type twice in a row gives the same object, and the
/// second time changes nothing.
pub proof fn law_ctor_kept(vm0: Vm, vm1: Vm, vm2: Vm, k: Make, r1: Var, r2: Var)
    requires
        ctor_outcome(vm0, vm1, k, r1),
        ctor_outcome(vm1, vm2, k, r2),
    ensures
        r2 == r1,
        vm2 == vm1,
{
}

} // verus!
