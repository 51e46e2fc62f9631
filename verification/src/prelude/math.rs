use vstd::prelude::*;
use crate::var::integer::{big_add, Int};
use crate::var::{collected_text, Value, Var, VarPtr};
use crate::vm::ctx::lemma_push_wf;
use crate::vm::heap::{live, object, Mark};
use crate::vm::runtime::{heap_wf, Vm};
use crate::vm::signal::{Abort, Signal};
use crate::var::meta::{get, get_outcome, resolvable};

verus! {

/// What adding the objects `args` gives.
pub open spec fn add_outcome(old: Vm, new: Vm, args: Seq<Var>, res: Signal) -> bool {
    if args.len() == 0 {
        new == old && (res matches Err(Abort::ThrowString(s)) && s@ == "X呢?"@)
    } else if args.len() == 1 {
        new == old && (res matches Err(Abort::ThrowString(s)) && s@ == "Y呢?"@)
    } else if !live(old.heap@, args[0]) {
        new == old && (res matches Err(Abort::ThrowString(s)) && s@ == collected_text(args[0]))
    } else if !live(old.heap@, args[1]) {
        new == old && (res matches Err(Abort::ThrowString(s)) && s@ == collected_text(args[1]))
    } else if !(object(old.heap@, args[0]) is Int) {
        new == old && (res matches Err(Abort::ThrowString(s)) && s@ == "X不是整数"@)
    } else if !(object(old.heap@, args[1]) is Int) {
        new == old && (res matches Err(Abort::ThrowString(s)) && s@ == "Y不是整数"@)
    } else {
        &&& res == Ok::<Var, Abort>(Var { ptr: old.heap@.len() as usize })
        &&& new.heap@.len() == old.heap@.len() + 1
        &&& new.heap@.drop_last() == old.heap@
        &&& new.heap@.last() is Some
        &&& new.heap@.last()->Some_0.mark == Mark::New
        &&& new.heap@.last()->Some_0.value is Int
        &&& new.heap@.last()->Some_0.value->Int_0.value()
            == object(old.heap@, args[0])->Int_0.value() + object(old.heap@, args[1])->Int_0.value()
        &&& new.same_roots(&old)
    }
}

/// Adds two integer objects: the first two arguments, which must both be integers still on
/// the heap.
pub fn add(vm: &mut Vm, args: &Vec<Var>) -> (res: Signal)
    ensures
        add_outcome(*old(vm), *final(vm), args@, res),
        heap_wf(old(vm).heap@) ==> heap_wf(final(vm).heap@),
        old(vm).wf() ==> final(vm).wf(),
{
    if args.len() == 0 {
        return Err(Abort::ThrowString("X呢?".to_owned()));
    }
    if args.len() == 1 {
        return Err(Abort::ThrowString("Y呢?".to_owned()));
    }
    let x = match args[0].unbox(vm) {
        Ok(x) => x,
        Err(e) => { return Err(e); },
    };
    let y = match args[1].unbox(vm) {
        Ok(y) => y,
        Err(e) => { return Err(e); },
    };
    let sum = match (x, y) {
        (Value::Int(x), Value::Int(y)) => big_add(x, y),
        (Value::Int(_), _) => { return Err(Abort::ThrowString("Y不是整数".to_owned())); },
        _ => { return Err(Abort::ThrowString("X不是整数".to_owned())); },
    };
    let r = vm.alloc_value(Value::Int(sum));
    proof { assert(vm.heap@.drop_last() =~= old(vm).heap@); lemma_push_wf(*old(vm), *vm); }
    Ok(r)
}

/// What `x + y` calls: the `#add` property of the first argument, to be called with the
/// second; the error for a missing argument.
pub fn add_target(vm: &Vm, args: &Vec<Var>) -> (res: Result<(Var, Var), Abort>)
    requires
        vm.wf(),
        args@.len() > 0 ==> resolvable(vm.heap@, args@[0], "#add"@),
    ensures
        args@.len() == 0 ==> (res matches Err(Abort::ThrowString(s)) && s@ == "add: missing argument 0"@),
        args@.len() == 1 ==> (res matches Err(Abort::ThrowString(s)) && s@ == "add: missing argument 1"@),
        args@.len() >= 2 ==> exists|r: Signal| #[trigger] get_outcome(*vm, args@[0], "#add"@, r) && match r {
            Ok(f) => res == Ok::<(Var, Var), Abort>((f, args@[1])),
            Err(e) => res == Err::<(Var, Var), Abort>(e),
        },
{
    if args.len() == 0 {
        return Err(Abort::ThrowString("add: missing argument 0".to_owned()));
    }
    if args.len() == 1 {
        return Err(Abort::ThrowString("add: missing argument 1".to_owned()));
    }
    match get(vm, args[0], "#add") {
        Ok(f) => Ok((f, args[1])),
        Err(e) => Err(e),
    }
}

} // verus!
