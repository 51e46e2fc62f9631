use vstd::prelude::*;
use crate::text::push_str;
use crate::var::meta::{found, get, get_outcome, resolvable, set_outcome, settable, Found};
use crate::var::{collected_text, spec_type_name, value_type_name, Value, Var};
use crate::vm::error::{cast_error, cast_error_text};
use crate::vm::heap::{live, object};
use crate::vm::runtime::Vm;
use crate::vm::signal::{Abort, Signal};

verus! {

/// A method: a name, and the key under which a type stores its implementation of it.
pub struct Method {
    pub name: String,
    pub uukey: String,
}

/// The lowercase hexadecimal digits.
pub open spec fn is_hex_lower(c: char) -> bool {
    ('0' <= c && c <= '9') || ('a' <= c && c <= 'f')
}

/// The text of a random (version 4) UUID: 36 characters, lowercase hexadecimal digits in
/// groups of 8, 4, 4, 4 and 12 between hyphens, the version digit `4`, the variant digit one
/// of `8 9 a b`.
pub open spec fn uuid_v4_text(s: Seq<char>) -> bool {
    &&& s.len() == 36
    &&& forall|i: int| 0 <= i < 36 ==> if i == 8 || i == 13 || i == 18 || i == 23 { s[i] == '-' } else { is_hex_lower(#[trigger] s[i]) }
    &&& s[14] == '4'
    &&& (s[19] == '8' || s[19] == '9' || s[19] == 'a' || s[19] == 'b')
}

/// A fresh random UUID as text (`uuid::Uuid::new_v4`, shown by its `Display`). The crate
/// draws it from the operating system's random source and sets the version and variant
/// bits; what the random bits are is not stated.
#[verifier::external_body]
fn new_uuid_text() -> (res: String)
    ensures
        uuid_v4_text(res@),
{
    uuid::Uuid::new_v4().to_string()
}

/// The key for a method made with the UUID `u`, and the name it goes by.
pub open spec fn method_key(u: Seq<char>) -> Seq<char> {
    "--"@ + u + "--"@
}

pub open spec fn method_name(name: Option<String>, key: Seq<char>) -> Seq<char> {
    match name {
        Some(n) => n@,
        None => "method@"@ + key,
    }
}

impl Method {
    /// A method named `name` (or `method@` and its key, without a name) whose key is made
    /// from a fresh random UUID.
    pub fn new(name: Option<String>) -> (res: Self)
        ensures
            exists|u: Seq<char>| uuid_v4_text(u) && res.uukey@ == method_key(u),
            res.name@ == method_name(name, res.uukey@),
    {
        let u = new_uuid_text();
        Self::with_uuid(name, &u)
    }

    /// A method named `name` (or `method@` and its key) whose key is made from `uuid`.
    pub fn with_uuid(name: Option<String>, uuid: &String) -> (res: Self)
        ensures
            res.uukey@ == method_key(uuid@),
            res.name@ == method_name(name, res.uukey@),
    {
        let mut uukey = String::new();
        push_str(&mut uukey, "--");
        push_str(&mut uukey, uuid.as_str());
        push_str(&mut uukey, "--");
        let name = match name {
            Some(n) => n,
            None => {
                let mut s = String::new();
                push_str(&mut s, "method@");
                push_str(&mut s, uukey.as_str());
                s
            },
        };
        Self { name, uukey }
    }

    /// The key under which types store their implementation of the method.
    pub fn uukey(&self) -> (res: &str)
        ensures
            res@ == self.uukey@,
    {
        self.uukey.as_str()
    }

    /// The name of the method.
    pub fn name(&self) -> (res: &str)
        ensures
            res@ == self.name@,
    {
        self.name.as_str()
    }

    /// The implementation a call of the method with `args` runs: the property under the
    /// method's key of the first argument; the error for a call without arguments.
    pub fn target(&self, vm: &Vm, args: &Vec<Var>) -> (res: Signal)
        requires
            vm.wf(),
            args@.len() > 0 ==> resolvable(vm.heap@, args@[0], self.uukey@),
        ensures
            args@.len() == 0 ==> (res matches Err(Abort::ThrowString(s)) && s@ == "方法调用时缺少对象参数"@),
            args@.len() > 0 ==> get_outcome(*vm, args@[0], self.uukey@, res),
    {
        if args.len() == 0 {
            return Err(Abort::ThrowString("方法调用时缺少对象参数".to_owned()));
        }
        get(vm, args[0], self.uukey.as_str())
    }
}


/// What `impl` needs to end: where the arguments get as far as reading the type's instance
/// meta object (under `meta_key`), that read ends, and writing the method's key on the object
/// found ends too.
pub open spec fn impl_ready(vm: Vm, args: Seq<Var>, meta_key: Seq<char>) -> bool {
    (args.len() >= 3 && live(vm.heap@, args[0]) && object(vm.heap@, args[0]) is Method && live(vm.heap@, args[1]))
        ==> {
            &&& resolvable(vm.heap@, args[1], meta_key)
            &&& match found(vm.heap@, args[1], meta_key) {
                Found::Bound(x) => live(vm.heap@, x) ==> settable(vm.heap@, x, object(vm.heap@, args[0])->Method_0.uukey@),
                _ => true,
            }
        }
}

/// What `impl` with `args` does.
pub open spec fn impl_outcome(old: Vm, new: Vm, args: Seq<Var>, meta_key: Seq<char>, res: Signal) -> bool {
    let h = old.heap@;
    if args.len() == 0 {
        new == old && (res matches Err(Abort::ThrowString(s)) && s@ == "方法实现时缺少方法参数"@)
    } else if !live(h, args[0]) {
        new == old && (res matches Err(Abort::ThrowString(s)) && s@ == collected_text(args[0]))
    } else if !(object(h, args[0]) is Method) {
        new == old && (res matches Err(Abort::ThrowString(s))
            && s@ == cast_error_text("clay::prelude::objects::method::Method"@, spec_type_name(object(h, args[0]))))
    } else if args.len() == 1 {
        new == old && (res matches Err(Abort::ThrowString(s)) && s@ == "方法实现时缺少类型参数"@)
    } else if !live(h, args[1]) {
        new == old && (res matches Err(Abort::ThrowString(s)) && s@ == collected_text(args[1]))
    } else if args.len() == 2 {
        new == old && (res matches Err(Abort::ThrowString(s)) && s@ == "方法实现时缺少函数参数"@)
    } else {
        exists|r: Signal| #[trigger] get_outcome(old, args[1], meta_key, r) && match r {
            Err(e) => new == old && res == Err::<Var, Abort>(e),
            Ok(x) => if !live(h, x) {
                new == old && (res matches Err(Abort::ThrowString(s)) && s@ == collected_text(x))
            } else {
                set_outcome(old, new, x, object(h, args[0])->Method_0.uukey@, args[2], res)
            },
        }
    }
}

/// `impl method type function`: stores `function` as the type's implementation of `method`,
/// under the method's key on the type's instance meta object, which the type holds under
/// `meta_key`. The errors name a missing argument, a collected one, or a first argument
/// that is no method.
pub fn impl_method(vm: &mut Vm, args: &Vec<Var>, meta_key: &str) -> (res: Signal)
    requires
        old(vm).wf(),
        impl_ready(*old(vm), args@, meta_key@),
    ensures
        impl_outcome(*old(vm), *final(vm), args@, meta_key@, res),
        final(vm).wf(),
{
    if args.len() == 0 {
        return Err(Abort::ThrowString("方法实现时缺少方法参数".to_owned()));
    }
    let key = match args[0].unbox(vm) {
        Ok(Value::Method(m)) => m.uukey.clone(),
        Ok(v) => { return Err(cast_error("clay::prelude::objects::method::Method", value_type_name(v))); },
        Err(e) => { return Err(e); },
    };
    if args.len() == 1 {
        return Err(Abort::ThrowString("方法实现时缺少类型参数".to_owned()));
    }
    match args[1].unbox(vm) {
        Ok(_) => {},
        Err(e) => { return Err(e); },
    }
    if args.len() == 2 {
        return Err(Abort::ThrowString("方法实现时缺少函数参数".to_owned()));
    }
    let r = get(vm, args[1], meta_key);
    let meta = match r {
        Ok(x) => x,
        Err(e) => { return Err(e); },
    };
    match meta.unbox(vm) {
        Ok(_) => {},
        Err(e) => { return Err(e); },
    }
    proof {
        let h = vm.heap@;
        if !(found(h, args@[1], meta_key@) is Bound) {
            let u = vm.undef->Some_0;
            assert(h[u.ptr as int] is Some);
        }
    }
    crate::var::meta::set(vm, meta, key.as_str(), args[2])
}


/// Implementing a method on a type whose instance meta object is a module always succeeds,
/// whether or not the method was implemented there before, and afterwards reading the
/// method's key on that object gives the function just given: a later `impl` replaces an
/// earlier one.
pub proof fn law_impl_replaces(old: Vm, new: Vm, args: Seq<Var>, meta_key: Seq<char>, meta: Var, res: Signal)
    requires
        args.len() >= 3,
        live(old.heap@, args[0]),
        object(old.heap@, args[0]) is Method,
        live(old.heap@, args[1]),
        found(old.heap@, args[1], meta_key) == Found::Bound(meta),
        live(old.heap@, meta),
        object(old.heap@, meta) is Module,
        impl_outcome(old, new, args, meta_key, res),
    ensures
        res == Ok::<Var, Abort>(args[2]),
        resolvable(new.heap@, meta, object(old.heap@, args[0])->Method_0.uukey@),
        found(new.heap@, meta, object(old.heap@, args[0])->Method_0.uukey@) == Found::Bound(args[2]),
{
    let key = object(old.heap@, args[0])->Method_0.uukey@;
    let r = choose|r: Signal| #[trigger] get_outcome(old, args[1], meta_key, r) && match r {
        Err(e) => new == old && res == Err::<Var, Abort>(e),
        Ok(x) => if !live(old.heap@, x) {
            new == old && (res matches Err(Abort::ThrowString(s)) && s@ == collected_text(x))
        } else {
            set_outcome(old, new, x, key, args[2], res)
        },
    };
    assert(r == Ok::<Var, Abort>(meta));
    crate::var::meta::law_set_then_get(old, new, meta, key, args[2], res);
}

} // verus!
