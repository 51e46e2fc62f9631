use vstd::prelude::*;
use crate::prelude::objects::func::{args_bound, bind_args, Func};
use crate::var::meta::{get, get_outcome, resolvable};
use crate::var::ctor::{made, make, Make};
use crate::var::{Value, Var};
use crate::vm::env::Env;
use crate::vm::error::{not_a_func, throws};
use crate::vm::heap::{live, object};
use crate::vm::runtime::{heap_wf, Vm};
use crate::vm::signal::{Abort, Signal};

verus! {

/// Where calling an object leads.
pub enum Call {
    /// The call is over, with this outcome.
    Done(Signal),
    /// The host function with this index runs, with the same arguments.
    Native(usize),
    /// This object is called in turn, with the same arguments.
    Again(Var),
}

/// A call of the object `var` with `args` can be carried out here: a function written in the
/// language has an empty body and the scope of `env` is live; a method finds its way to the
/// implementation.
pub open spec fn callable(vm: Vm, env: Env, var: Var, args: Seq<Var>) -> bool {
    match object(vm.heap@, var) {
        Value::Func(Func::Script(s)) => s.code@.len() == 0 && live(vm.heap@, env.spec_ctx()),
        Value::Method(m) => args.len() > 0 ==> resolvable(vm.heap@, args[0], m.uukey@),
        _ => true,
    }
}

/// What calling the object `var` with `args` in `env` does.
pub open spec fn call_outcome(old: Vm, new: Vm, env: Env, var: Var, args: Seq<Var>, res: Call) -> bool {
    match object(old.heap@, var) {
        Value::Func(Func::Native(n)) => new == old && res == Call::Native(n.id),
        Value::Func(Func::Ctor(k)) => res matches Call::Done(Ok(v)) && made(old, new, k, env, args, v),
        Value::Func(Func::Script(s)) => {
            &&& res == Call::Done(Ok::<Var, Abort>(old.undef->Some_0))
            &&& args_bound(old, new, env.spec_ctx(), s.args_names@, args)
        },
        Value::Method(m) => {
            &&& new == old
            &&& if args.len() == 0 {
                res matches Call::Done(Err(Abort::ThrowString(t))) && t@ == "方法调用时缺少对象参数"@
            } else {
                exists|r: Signal| #[trigger] get_outcome(old, args[0], m.uukey@, r) && match r {
                    Ok(t) => res == Call::Again(t),
                    Err(e) => res == Call::Done(Err::<Var, Abort>(e)),
                }
            }
        },
        _ => res matches Call::Done(Err(a)) && throws(old, new, a, "not a function\n\t\t不是函数"@),
    }
}

fn copy_names(v: &Vec<String>) -> (res: Vec<String>)
    ensures
        res@ == v@,
{
    let mut out: Vec<String> = Vec::new();
    let mut i: usize = 0;
    while i < v.len()
        invariant
            i <= v@.len(),
            out@ == v@.subrange(0, i as int),
        decreases v@.len() - i,
    {
        out.push(v[i].clone());
        i = i + 1;
        proof { assert(out@ =~= v@.subrange(0, i as int)); }
    }
    proof { assert(v@.subrange(0, v@.len() as int) =~= v@); }
    out
}

/// What the object is, as far as a call needs to know.
enum Callee {
    Host(usize),
    Script(Vec<String>),
    Meth(String),
    Make(Make),
    Other,
}

/// Calls the object `var` with `args` in `env`: a host function is handed back to the host to
/// run; a type's constructor makes a new object of the type; a function written in the language binds its parameters and gives the undefined
/// value; a method finds the implementation its first argument has for it, to be called in
/// turn; any other object is no function.
pub fn call(vm: &mut Vm, env: &Env, var: Var, args: &Vec<Var>) -> (res: Call)
    requires
        old(vm).wf(),
        live(old(vm).heap@, var),
        callable(*old(vm), *env, var, args@),
    ensures
        call_outcome(*old(vm), *final(vm), *env, var, args@, res),
        final(vm).wf(),
{
    proof { assert(vm.heap@[var.ptr as int] is Some); }
    let callee = match vm.heap.value(var) {
        Value::Func(Func::Native(n)) => Callee::Host(n.id),
        Value::Func(Func::Ctor(k)) => Callee::Make(*k),
        Value::Func(Func::Script(s)) => Callee::Script(copy_names(&s.args_names)),
        Value::Method(m) => Callee::Meth(m.uukey.clone()),
        _ => Callee::Other,
    };
    match callee {
        Callee::Host(id) => Call::Native(id),
        Callee::Script(names) => {
            bind_args(vm, env.ctx(), &names, args);
            Call::Done(vm.undef())
        },
        Callee::Meth(key) => {
            if args.len() == 0 {
                return Call::Done(Err(Abort::ThrowString("方法调用时缺少对象参数".to_owned())));
            }
            let r = get(vm, args[0], key.as_str());
            match r {
                Ok(t) => Call::Again(t),
                Err(e) => Call::Done(Err(e)),
            }
        },
        Callee::Make(k) => Call::Done(Ok(make(vm, k, env, args))),
        Callee::Other => {
            let a = not_a_func(vm);
            proof { crate::var::meta::lemma_throws_keeps(*old(vm), *vm, a, "not a function\n\t\t不是函数"@); }
            Call::Done(Err(a))
        },
    }
}

} // verus!
