use vstd::prelude::*;
use crate::table::{table_get, table_insert, table_unique, Entry};
use crate::text::{hex_digits, push_hex, push_str};
use crate::prelude::objects::method::is_hex_lower;
use crate::var::ctor::{make_name, make_name_text, Make};
use crate::var::meta::{def, def_outcome, found, lemma_bound_here, Found};
use crate::vm::heap::{object, rebound, table_of};
use crate::var::{Value, Var, VarPtr};
use crate::vm::ctx::{from_map, Ctx};
use crate::vm::env::Env;
use crate::vm::heap::{live, Mark};
use crate::vm::runtime::{heap_wf, Vm};
use crate::vm::signal::{Abort, Signal};
use crate::vm::{Ast, CtxType, ToRun};

verus! {

/// A function written in the language: its name, parameter names, body and defining scope.
pub struct Script {
    pub name: String,
    pub args_names: Vec<String>,
    pub code: Vec<Ast>,
    pub ctx: CtxType,
}

/// A function provided by the host: the index under which the host finds it, and its name.
pub struct Native {
    pub id: usize,
    pub name: Option<String>,
}

/// A callable object.
pub enum Func {
    Script(Script),
    Native(Native),
    /// The constructor of a type: calling it makes a new object of that type.
    Ctor(Make),
}

/// The object parameter `n` is bound to when a function with parameters `names` is called
/// with `args`: the argument at the last position that bears the name, or `undef` where
/// there is no argument there.
pub open spec fn arg_binding(names: Seq<String>, args: Seq<Var>, undef: Var, n: Seq<char>) -> Option<Var>
    decreases names.len(),
{
    if names.len() == 0 {
        None
    } else if names.last()@ == n {
        Some(if names.len() - 1 < args.len() { args[names.len() - 1] } else { undef })
    } else {
        arg_binding(names.drop_last(), args, undef, n)
    }
}

/// The text std's `{:p}` gives for a pointer: `0x` and lowercase hexadecimal digits.
pub open spec fn pointer_text(p: Seq<char>) -> bool {
    &&& p.len() > 2
    &&& p[0] == '0' && p[1] == 'x'
    &&& forall|i: int| 2 <= i < p.len() ==> is_hex_lower(#[trigger] p[i])
}

/// An address of the running program, as `format!("{:p}")` shows a pointer. Which address
/// it is depends on where the program runs and is not stated.
#[verifier::external_body]
fn address_text() -> (res: String)
    ensures
        pointer_text(res@),
{
    let addr: () = ();
    format!("{:p}", &addr)
}

/// The name a host function goes by: its own, else `NativeFunc@` and its index.
pub open spec fn native_name(n: Native) -> Seq<char> {
    match n.name {
        Some(s) => s@,
        None => "NativeFunc@0x"@ + hex_digits(n.id as nat),
    }
}

impl Native {
    pub fn new(id: usize, name: Option<String>) -> (res: Self)
        ensures
            res.id == id,
            res.name == name,
    {
        Self { id, name }
    }

    /// The name of the host function.
    pub fn name(&self) -> (res: String)
        ensures
            res@ == native_name(*self),
    {
        match &self.name {
            Some(n) => n.clone(),
            None => {
                let mut s = String::new();
                push_str(&mut s, "NativeFunc@0x");
                push_hex(&mut s, self.id);
                s
            },
        }
    }
}

impl Script {
    /// A function named `name` (or `lambda@` and an address in hexadecimal, without a name) taking
    /// `args_names`, running `code` in the scope `ctx`.
    pub fn new(name: Option<String>, args_names: Vec<String>, ctx: CtxType, code: Vec<ToRun>) -> (res: Self)
        ensures
            match name {
                Some(n) => res.name == n,
                None => exists|p: Seq<char>| pointer_text(p) && res.name@ == "lambda@"@ + p,
            },
            res.args_names == args_names,
            res.ctx == ctx,
            res.code == code,
    {
        let name = match name {
            Some(n) => n,
            None => {
                let p = address_text();
                let mut n = String::new();
                push_str(&mut n, "lambda@");
                push_str(&mut n, p.as_str());
                proof { assert(pointer_text(p@)); }
                n
            },
        };
        Self { name, args_names, ctx, code }
    }

    /// A new scope for a call with `args`, inside the function's own scope: each parameter
    /// bound to its argument, or to `undef` where the call gives none.
    pub fn cons_ctx(&self, vm: &mut Vm, args: &Vec<Var>) -> (res: CtxType)
        requires
            old(vm).wf(),
        ensures
            res.ptr == old(vm).heap@.len(),
            final(vm).heap@.len() == old(vm).heap@.len() + 1,
            final(vm).heap@.drop_last() == old(vm).heap@,
            final(vm).heap@.last() is Some,
            final(vm).heap@.last()->Some_0.mark == Mark::New,
            final(vm).heap@.last()->Some_0.value is Ctx,
            final(vm).heap@.last()->Some_0.value->Ctx_0.upper == self.ctx,
            forall|n: Seq<char>| table_get(final(vm).heap@.last()->Some_0.value->Ctx_0.vars@, n)
                == arg_binding(self.args_names@, args@, old(vm).undef->Some_0, n),
            final(vm).same_roots(old(vm)),
            final(vm).wf(),
    {
        let undef = match vm.undef() {
            Ok(u) => u,
            Err(_) => { proof { assert(false); } return self.ctx; },
        };
        let mut map: Vec<Entry> = Vec::new();
        let mut i: usize = 0;
        while i < self.args_names.len()
            invariant
                i <= self.args_names@.len(),
                table_unique(map@),
                forall|n: Seq<char>| table_get(map@, n) == arg_binding(self.args_names@.subrange(0, i as int), args@, undef, n),
            decreases self.args_names@.len() - i,
        {
            let arg = if i < args.len() { args[i] } else { undef };
            let ghost before = map@;
            table_insert(&mut map, self.args_names[i].as_str(), arg);
            proof {
                let pre = self.args_names@.subrange(0, i + 1);
                assert(pre.drop_last() =~= self.args_names@.subrange(0, i as int));
                assert(pre.last() == self.args_names@[i as int]);
            }
            i = i + 1;
        }
        proof { assert(self.args_names@.subrange(0, self.args_names@.len() as int) =~= self.args_names@); }
        let r = from_map(vm, map, Some(self.ctx));
        proof {
            assert(vm.heap@.drop_last() =~= old(vm).heap@);
        }
        r
    }

    /// Calls the function with `args` in `env`: binds the first parameters to the arguments
    /// given, one definition after another in the scope of `env`, and gives the undefined
    /// value. Only a function with an empty body can be called.
    pub fn call(&self, vm: &mut Vm, env: &Env, args: &Vec<Var>) -> (res: Signal)
        requires
            old(vm).wf(),
            live(old(vm).heap@, env.spec_ctx()),
            self.code@.len() == 0,
        ensures
            res == Ok::<Var, Abort>(old(vm).undef->Some_0),
            args_bound(*old(vm), *final(vm), env.spec_ctx(), self.args_names@, args@),
            final(vm).wf(),
    {
        bind_args(vm, env.ctx(), &self.args_names, args);
        vm.undef()
    }
}

/// `new` comes from `old` by defining, one after another on `ctx`, each of the first
/// parameters `names` as the argument at its position, as far as there are arguments.
pub open spec fn args_bound(old: Vm, new: Vm, ctx: Var, names: Seq<String>, args: Seq<Var>) -> bool {
    exists|s: Seq<Vm>| {
        &&& s.len() == min_len(names.len(), args.len()) + 1
        &&& s[0] == old
        &&& s.last() == new
        &&& defs_applied(s, ctx, names, args)
    }
}

/// Defines, one after another on `ctx`, each of the first parameters `names` as the
/// argument at its position, as far as there are arguments.
pub fn bind_args(vm: &mut Vm, ctx: Var, names: &Vec<String>, args: &Vec<Var>)
    requires
        old(vm).wf(),
        live(old(vm).heap@, ctx),
    ensures
        args_bound(*old(vm), *final(vm), ctx, names@, args@),
        final(vm).wf(),
        final(vm).undef == old(vm).undef,
        live(final(vm).heap@, ctx),
{
    let m = if names.len() > args.len() { args.len() } else { names.len() };
    let ghost mut s: Seq<Vm> = seq![*vm];
    let mut index: usize = 0;
    while index < m
        invariant
            m == min_len(names@.len(), args@.len()),
            m <= names@.len(),
            m <= args@.len(),
            index <= m,
            vm.wf(),
            live(vm.heap@, ctx),
            s.len() == index + 1,
            s[0] == *old(vm),
            s.last() == *vm,
            defs_applied(s, ctx, names@, args@),
            vm.undef == old(vm).undef,
        decreases m - index,
    {
        let ghost before = *vm;
        let r = def(vm, ctx, names[index].as_str(), args[index]);
        proof {
            lemma_def_keeps_live(before, *vm, ctx, names@[index as int]@, args@[index as int], r);
            let s2 = s.push(*vm);
            assert forall|k: int| 0 <= k < s2.len() - 1 implies
                def_step(#[trigger] s2[k], s2[k + 1], ctx, names@[k]@, args@[k]) by {
                if k < s.len() - 1 {
                    assert(s2[k] == s[k] && s2[k + 1] == s[k + 1]);
                } else {
                    assert(def_outcome(s2[k], s2[k + 1], ctx, names@[k]@, args@[k], r));
                }
            }
            s = s2;
        }
        index = index + 1;
    }
}

/// The smaller of two lengths.
pub open spec fn min_len(a: nat, b: nat) -> nat {
    if a > b { b } else { a }
}

/// Each state of `s` comes from the one before by defining `names[k]` as `args[k]` on `ctx`.
pub open spec fn defs_applied(s: Seq<Vm>, ctx: Var, names: Seq<String>, args: Seq<Var>) -> bool {
    forall|k: int| 0 <= k < s.len() - 1 ==> def_step(#[trigger] s[k], s[k + 1], ctx, names[k]@, args[k])
}

/// `b` comes from `a` by defining `name` as `value` on `ctx`, whatever that answered.
pub open spec fn def_step(a: Vm, b: Vm, ctx: Var, name: Seq<char>, value: Var) -> bool {
    exists|r: Signal| #[trigger] def_outcome(a, b, ctx, name, value, r)
}

proof fn lemma_def_keeps_live(old: Vm, new: Vm, ctx: Var, name: Seq<char>, value: Var, r: Signal)
    requires
        live(old.heap@, ctx),
        def_outcome(old, new, ctx, name, value, r),
    ensures
        live(new.heap@, ctx),
        new.undef == old.undef,
{
    if new.heap@.len() == old.heap@.len() + 1 && new.heap@.drop_last() == old.heap@ {
        assert(new.heap@[ctx.ptr as int] == new.heap@.drop_last()[ctx.ptr as int]);
    }
}

impl Func {
    /// The name of the function.
    pub fn name(&self) -> (res: String)
        ensures
            match self {
                Func::Script(s) => res@ == s.name@,
                Func::Native(n) => res@ == native_name(*n),
                Func::Ctor(k) => res@ == make_name(*k),
            },
    {
        match self {
            Func::Script(s) => s.name.clone(),
            Func::Native(n) => n.name(),
            Func::Ctor(k) => make_name_text(*k).to_string(),
        }
    }
}


/// What the first `i` definitions of `names` as `args` leave bound to `n`, where `d` was
/// bound before: the argument of the last of them with that name, else `d`.
spec fn bound_after(names: Seq<String>, args: Seq<Var>, i: int, n: Seq<char>, d: Option<Var>) -> Option<Var>
    decreases i,
{
    if i <= 0 {
        d
    } else if names[i - 1]@ == n {
        Some(args[i - 1])
    } else {
        bound_after(names, args, i - 1, n, d)
    }
}

proof fn lemma_defs_table(s: Seq<Vm>, ctx: Var, names: Seq<String>, args: Seq<Var>, i: int)
    requires
        defs_applied(s, ctx, names, args),
        0 <= i < s.len(),
        live(s[0].heap@, ctx),
        object(s[0].heap@, ctx) is Ctx,
    ensures
        live(s[i].heap@, ctx),
        object(s[i].heap@, ctx) is Ctx,
        forall|n: Seq<char>| #[trigger] table_get(table_of(object(s[i].heap@, ctx)), n)
            == bound_after(names, args, i, n, table_get(table_of(object(s[0].heap@, ctx)), n)),
    decreases i,
{
    if i > 0 {
        lemma_defs_table(s, ctx, names, args, i - 1);
        assert(def_step(s[i - 1], s[i], ctx, names[i - 1]@, args[i - 1]));
        let r = choose|r: Signal| #[trigger] def_outcome(s[i - 1], s[i], ctx, names[i - 1]@, args[i - 1], r);
        assert(rebound(s[i - 1].heap@, s[i].heap@, ctx, names[i - 1]@, args[i - 1]));
        assert forall|n: Seq<char>| #[trigger] table_get(table_of(object(s[i].heap@, ctx)), n)
            == bound_after(names, args, i, n, table_get(table_of(object(s[0].heap@, ctx)), n)) by {
            assert(table_get(table_of(object(s[i - 1].heap@, ctx)), n)
                == bound_after(names, args, i - 1, n, table_get(table_of(object(s[0].heap@, ctx)), n)));
        }
    } else {
        assert forall|n: Seq<char>| #[trigger] table_get(table_of(object(s[i].heap@, ctx)), n)
            == bound_after(names, args, i, n, table_get(table_of(object(s[0].heap@, ctx)), n)) by {}
    }
}

proof fn lemma_bound_after_last(names: Seq<String>, args: Seq<Var>, i: int, k: int, d: Option<Var>)
    requires
        0 <= k < i,
        forall|j: int| k < j < i ==> names[j]@ != names[k]@,
    ensures
        bound_after(names, args, i, names[k]@, d) == Some(args[k]),
    decreases i,
{
    if i - 1 > k {
        lemma_bound_after_last(names, args, i - 1, k, d);
    }
}

proof fn lemma_bound_after_none(names: Seq<String>, args: Seq<Var>, i: int, n: Seq<char>, d: Option<Var>)
    requires
        forall|j: int| 0 <= j < i ==> names[j]@ != n,
    ensures
        bound_after(names, args, i, n, d) == d,
    decreases i,
{
    if i > 0 {
        lemma_bound_after_none(names, args, i - 1, n, d);
    }
}

/// After a call binds its parameters on a scope, each parameter that no later parameter
/// shares its name with reads as the argument at its own position, and every name that is
/// no bound parameter keeps what the scope bound to it before.
pub proof fn law_params_bound(old: Vm, new: Vm, ctx: Var, names: Seq<String>, args: Seq<Var>, k: int, n: Seq<char>)
    requires
        live(old.heap@, ctx),
        object(old.heap@, ctx) is Ctx,
        args_bound(old, new, ctx, names, args),
    ensures
        live(new.heap@, ctx),
        object(new.heap@, ctx) is Ctx,
        (0 <= k < min_len(names.len(), args.len())
            && forall|j: int| k < j < min_len(names.len(), args.len()) ==> names[j]@ != names[k]@)
            ==> table_get(table_of(object(new.heap@, ctx)), names[k]@) == Some(args[k])
                && found(new.heap@, ctx, names[k]@) == Found::Bound(args[k]),
        (forall|j: int| 0 <= j < min_len(names.len(), args.len()) ==> names[j]@ != n)
            ==> table_get(table_of(object(new.heap@, ctx)), n) == table_get(table_of(object(old.heap@, ctx)), n),
{
    let m = min_len(names.len(), args.len());
    let s = choose|s: Seq<Vm>| {
        &&& s.len() == m + 1
        &&& s[0] == old
        &&& s.last() == new
        &&& defs_applied(s, ctx, names, args)
    };
    lemma_defs_table(s, ctx, names, args, m as int);
    assert(s[m as int] == new);
    if 0 <= k < m && forall|j: int| k < j < m ==> names[j]@ != names[k]@ {
        lemma_bound_after_last(names, args, m as int, k, table_get(table_of(object(old.heap@, ctx)), names[k]@));
        lemma_bound_here(new.heap@, ctx, names[k]@, args[k]);
    }
    if forall|j: int| 0 <= j < m ==> names[j]@ != n {
        lemma_bound_after_none(names, args, m as int, n, table_get(table_of(object(old.heap@, ctx)), n));
    }
}

} // verus!
