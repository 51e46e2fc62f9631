use vstd::prelude::*;
use crate::prelude::objects::array::Array;
use crate::prelude::objects::func::Func;
use crate::prelude::objects::method::Method;
use crate::prelude::objects::module::Module;
use crate::prelude::objects::object::Object;
use crate::prelude::objects::undef::Undef;
use crate::table::table_vars;
use crate::var::boolean::Bool;
use crate::var::integer::Int;
use crate::var::list::List;
use crate::vm::ctx::{Ctx, Void};
use crate::vm::error::VmError;
use crate::vm::heap::{live, object, Mark};
use crate::text::{hex_digits, push_hex, push_str};

pub mod boolean;
pub mod integer;
pub mod string;
pub mod meta;
pub mod call;
pub mod ctor;
pub mod float;
pub mod func;
pub mod list;

verus! {

/// A handle to an object on the runtime's heap: the slot that holds it.
#[derive(Clone, Copy, PartialEq, Eq, Structural, Debug)]
pub struct Var {
    pub ptr: usize,
}

/// An object of the language, as it is held on the heap.
pub enum Value {
    Undef(Undef),
    Bool(Bool),
    /// A number, held as the bit pattern of its `f64`.
    Number(u64),
    Int(Int),
    Str(String),
    Array(Array),
    Object(Object),
    Ctx(Ctx),
    Void(Void),
    Module(Module),
    Method(Method),
    Func(Func),
    Error(VmError),
    List(List),
}

impl Var {
    /// Puts `value` on the heap as a new object.
    pub fn new(value: Value, vm: &mut crate::vm::runtime::Vm) -> (res: Self)
        ensures
            res.ptr == old(vm).heap@.len(),
            final(vm).heap@ == old(vm).heap@.push(Some(VarPtr { mark: Mark::New, value })),
            final(vm).same_roots(old(vm)),
    {
        vm.alloc_value(value)
    }

    /// The object this handle stands for, or, where its slot was freed by the collector, the
    /// error saying so.
    pub fn unbox<'a>(&self, vm: &'a crate::vm::runtime::Vm) -> (res: Result<&'a Value, crate::vm::signal::Abort>)
        ensures
            live(vm.heap@, *self) ==> res == Ok::<&Value, crate::vm::signal::Abort>(&object(vm.heap@, *self)),
            !live(vm.heap@, *self) ==> (res matches Err(crate::vm::signal::Abort::ThrowString(e))
                && e@ == collected_text(*self)),
    {
        if vm.heap.is_live(*self) {
            Ok(vm.heap.value(*self))
        } else {
            let mut s = String::new();
            push_str(&mut s, "Error:变量已被回收(0x");
            push_hex(&mut s, self.ptr);
            push_str(&mut s, ")");
            Err(crate::vm::signal::Abort::ThrowString(s))
        }
    }
}

/// The error for a handle whose object was collected: the message names the handle's slot.
pub open spec fn collected_text(v: Var) -> Seq<char> {
    "Error:变量已被回收(0x"@ + hex_digits(v.ptr as nat) + ")"@
}

/// A heap slot: the collector's mark and the object.
pub struct VarPtr {
    pub mark: Mark,
    pub value: Value,
}

impl VarPtr {
    /// The object, where it is of type `to`; else the cast error naming `to` and the
    /// object's type.
    pub fn cast(&self, to: Kind) -> (res: Result<&Value, crate::vm::signal::Abort>)
        ensures
            kind_of(self.value) == to ==> res == Ok::<&Value, crate::vm::signal::Abort>(&self.value),
            kind_of(self.value) != to ==> (res matches Err(crate::vm::signal::Abort::ThrowString(e))
                && e@ == crate::vm::error::cast_error_text(kind_name(to), spec_type_name(self.value))),
    {
        let k = value_kind(&self.value);
        if k == to {
            Ok(&self.value)
        } else {
            Err(crate::vm::error::cast_error(kind_type_name(to), kind_type_name(k)))
        }
    }

    /// The object as a string; the cast error naming its type where it is none.
    pub fn cast_str(&self) -> (res: Result<&String, crate::vm::signal::Abort>)
        ensures
            match self.value {
                Value::Str(s) => res == Ok::<&String, crate::vm::signal::Abort>(&s),
                v => res matches Err(crate::vm::signal::Abort::ThrowString(e))
                    && e@ == crate::vm::error::cast_error_text("alloc::string::String"@, spec_type_name(v)),
            },
    {
        match &self.value {
            Value::Str(s) => Ok(s),
            v => Err(crate::vm::error::cast_error("alloc::string::String", value_type_name(v))),
        }
    }

    /// A freshly allocated slot: marked `New`.
    pub fn new(value: Value) -> (res: Self)
        ensures
            res.mark == Mark::New,
            res.value == value,
    {
        VarPtr { mark: Mark::New, value }
    }

    pub fn get_mark(&self) -> (res: Mark)
        ensures
            res == self.mark,
    {
        self.mark
    }

    pub fn set_mark(&mut self, mark: Mark)
        ensures
            final(self).mark == mark,
            final(self).value == old(self).value,
    {
        self.mark = mark;
    }
}

/// The objects that an object holds on to, as the collector sees them: the bindings of a
/// scope or a module, the elements of an array; nothing for any other object.
pub open spec fn children(v: Value) -> Seq<Var> {
    match v {
        Value::Ctx(c) => table_vars(c.vars@),
        Value::Module(m) => table_vars(m.exports@),
        Value::Array(a) => a.inner@,
        Value::List(l) => l.data@,
        _ => Seq::empty(),
    }
}

/// The types of objects.
#[derive(Clone, Copy, PartialEq, Eq, Structural, Debug)]
pub enum Kind {
    Undef,
    Bool,
    Number,
    Int,
    Str,
    Array,
    Object,
    Ctx,
    Void,
    Module,
    Method,
    Func,
    Error,
    List,
}

/// The type of an object.
pub open spec fn kind_of(v: Value) -> Kind {
    match v {
        Value::Undef(_) => Kind::Undef,
        Value::Bool(_) => Kind::Bool,
        Value::Number(_) => Kind::Number,
        Value::Int(_) => Kind::Int,
        Value::Str(_) => Kind::Str,
        Value::Array(_) => Kind::Array,
        Value::Object(_) => Kind::Object,
        Value::Ctx(_) => Kind::Ctx,
        Value::Void(_) => Kind::Void,
        Value::Module(_) => Kind::Module,
        Value::Method(_) => Kind::Method,
        Value::Func(_) => Kind::Func,
        Value::Error(_) => Kind::Error,
        Value::List(_) => Kind::List,
    }
}

/// The name std's `type_name` gives the Rust type of objects of type `k`.
pub open spec fn kind_name(k: Kind) -> Seq<char> {
    match k {
        Kind::Undef => "clay::prelude::objects::undef::Undef"@,
        Kind::Bool => "clay::var::boolean::Bool"@,
        Kind::Number => "f64"@,
        Kind::Int => "clay::var::integer::Int"@,
        Kind::Str => "alloc::string::String"@,
        Kind::Array => "clay::prelude::objects::array::Array"@,
        Kind::Object => "clay::prelude::objects::object::Object"@,
        Kind::Ctx => "clay::vm::ctx::Ctx"@,
        Kind::Void => "clay::vm::ctx::Void"@,
        Kind::Module => "clay::prelude::objects::module::Module"@,
        Kind::Method => "clay::prelude::objects::method::Method"@,
        Kind::Func => "clay::prelude::objects::func::Func"@,
        Kind::Error => "clay::vm::error::VmError"@,
        Kind::List => "clay::var::list::List"@,
    }
}

/// The name std's `type_name` gives the Rust type behind an object.
pub open spec fn spec_type_name(v: Value) -> Seq<char> {
    kind_name(kind_of(v))
}

/// The name of the Rust type of objects of type `k`.
pub fn kind_type_name(k: Kind) -> (res: &'static str)
    ensures
        res@ == kind_name(k),
{
    match k {
        Kind::Undef => "clay::prelude::objects::undef::Undef",
        Kind::Bool => "clay::var::boolean::Bool",
        Kind::Number => "f64",
        Kind::Int => "clay::var::integer::Int",
        Kind::Str => "alloc::string::String",
        Kind::Array => "clay::prelude::objects::array::Array",
        Kind::Object => "clay::prelude::objects::object::Object",
        Kind::Ctx => "clay::vm::ctx::Ctx",
        Kind::Void => "clay::vm::ctx::Void",
        Kind::Module => "clay::prelude::objects::module::Module",
        Kind::Method => "clay::prelude::objects::method::Method",
        Kind::Func => "clay::prelude::objects::func::Func",
        Kind::Error => "clay::vm::error::VmError",
        Kind::List => "clay::var::list::List",
    }
}

/// The type of an object.
pub fn value_kind(v: &Value) -> (res: Kind)
    ensures
        res == kind_of(*v),
{
    match v {
        Value::Undef(_) => Kind::Undef,
        Value::Bool(_) => Kind::Bool,
        Value::Number(_) => Kind::Number,
        Value::Int(_) => Kind::Int,
        Value::Str(_) => Kind::Str,
        Value::Array(_) => Kind::Array,
        Value::Object(_) => Kind::Object,
        Value::Ctx(_) => Kind::Ctx,
        Value::Void(_) => Kind::Void,
        Value::Module(_) => Kind::Module,
        Value::Method(_) => Kind::Method,
        Value::Func(_) => Kind::Func,
        Value::Error(_) => Kind::Error,
        Value::List(_) => Kind::List,
    }
}

/// The name of the Rust type behind an object.
pub fn value_type_name(v: &Value) -> (res: &'static str)
    ensures
        res@ == spec_type_name(*v),
{
    kind_type_name(value_kind(v))
}

} // verus!
