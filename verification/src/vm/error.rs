use vstd::prelude::*;
use crate::text::push_str;
use crate::var::{Value, Var, VarPtr};
use crate::vm::heap::Mark;
use crate::vm::runtime::Vm;
use crate::vm::signal::Abort;

verus! {

/// An error raised by the runtime: its message and, where one caused it, the text of the cause.
pub struct VmError {
    pub message: String,
    pub source: Option<String>,
}

impl VmError {
    pub fn new(message: &str, source: Option<String>) -> (res: Self)
        ensures
            res.message@ == message@,
            res.source == source,
    {
        Self { message: message.to_owned(), source }
    }

    /// The error with `source` (the text of what caused it) as its cause.
    pub fn with_source(self, source: String) -> (res: Self)
        ensures
            res.message == self.message,
            res.source == Some(source),
    {
        VmError { message: self.message, source: Some(source) }
    }

    /// How the error is shown: `Error: ` and the message, then the cause on a line of its own.
    pub fn to_text(&self) -> (res: String)
        ensures
            res@ == error_text(self.message@, match self.source { Some(s) => Some(s@), None => None }),
    {
        let mut out = String::new();
        push_str(&mut out, "Error: ");
        push_str(&mut out, self.message.as_str());
        match &self.source {
            Some(s) => {
                push_str(&mut out, "\n\tfrom: ");
                push_str(&mut out, s.as_str());
            },
            None => {},
        }
        out
    }
}

/// `Error: ` and the message, followed by `\n\tfrom: ` and the cause where there is one.
pub open spec fn error_text(message: Seq<char>, source: Option<Seq<char>>) -> Seq<char> {
    match source {
        Some(s) => "Error: "@ + message + "\n\tfrom: "@ + s,
        None => "Error: "@ + message,
    }
}

/// `new` is `old` with a fresh error object holding `msg` (and no cause) put on the heap,
/// and `a` throws that object.
pub open spec fn throws(old: Vm, new: Vm, a: Abort, msg: Seq<char>) -> bool {
    &&& a == Abort::Throw(Var { ptr: old.heap@.len() as usize })
    &&& new.heap@.len() == old.heap@.len() + 1
    &&& new.heap@.drop_last() == old.heap@
    &&& new.heap@.last() is Some
    &&& new.heap@.last()->Some_0.mark == Mark::New
    &&& new.heap@.last()->Some_0.value matches Value::Error(e)
    &&& new.heap@.last()->Some_0.value->Error_0.message@ == msg
    &&& new.heap@.last()->Some_0.value->Error_0.source is None
    &&& new.same_roots(&old)
}

/// Raises `message`: the error object goes on the heap and is thrown.
pub fn throw(vm: &mut Vm, message: &str) -> (res: Abort)
    ensures
        throws(*old(vm), *final(vm), res, message@),
{
    let v = vm.alloc_value(Value::Error(VmError::new(message, None)));
    proof { assert(vm.heap@.drop_last() =~= old(vm).heap@); }
    Abort::Throw(v)
}

pub open spec fn set_unsetable_text(type_str: Seq<char>, property_name: Seq<char>) -> Seq<char> {
    "set unsetable\n\t\t尝试设置"@ + property_name + "的属性"@ + type_str
}

pub open spec fn get_ungetable_text(type_str: Seq<char>, property_name: Seq<char>) -> Seq<char> {
    "get ungetable\n\t\t尝试获取"@ + property_name + "的属性"@ + type_str
}

pub open spec fn def_undefable_text(type_str: Seq<char>, property_name: Seq<char>) -> Seq<char> {
    "def undefable\n\t\t尝试在"@ + property_name + "上定义『"@ + type_str + "』属性"@
}

pub open spec fn cast_error_text(expect: Seq<char>, actual: Seq<char>) -> Seq<char> {
    "cast error\n                类型转换失败\n                期望类型: "@ + expect + ", 实际类型: "@ + actual
}

/// Raises the error for writing property `property_name` of an object of type `type_str`
/// that has no writable properties.
pub fn set_unsetable(vm: &mut Vm, type_str: &str, property_name: &str) -> (res: Abort)
    ensures
        throws(*old(vm), *final(vm), res, set_unsetable_text(type_str@, property_name@)),
{
    let mut m = String::new();
    push_str(&mut m, "set unsetable\n\t\t尝试设置");
    push_str(&mut m, property_name);
    push_str(&mut m, "的属性");
    push_str(&mut m, type_str);
    throw(vm, m.as_str())
}

/// Raises the error for reading property `property_name` of an object of type `type_str`
/// that has no readable properties.
pub fn get_ungetable(vm: &mut Vm, type_str: &str, property_name: &str) -> (res: Abort)
    ensures
        throws(*old(vm), *final(vm), res, get_ungetable_text(type_str@, property_name@)),
{
    let mut m = String::new();
    push_str(&mut m, "get ungetable\n\t\t尝试获取");
    push_str(&mut m, property_name);
    push_str(&mut m, "的属性");
    push_str(&mut m, type_str);
    throw(vm, m.as_str())
}

/// Raises the error for writing a property of the undefined value.
pub fn set_undef(vm: &mut Vm, property_name: &str) -> (res: Abort)
    ensures
        throws(*old(vm), *final(vm), res, set_unsetable_text("undef"@, property_name@)),
{
    set_unsetable(vm, "undef", property_name)
}

/// Raises the error for using an object that was collected.
pub fn use_dropped(vm: &mut Vm) -> (res: Abort)
    ensures
        throws(*old(vm), *final(vm), res, "use dropped\n\t\t变量已回收"@),
{
    throw(vm, "use dropped\n\t\t变量已回收")
}

/// Raises the error for an asynchronous function that could not be scheduled.
pub fn async_scheduler_error(vm: &mut Vm) -> (res: Abort)
    ensures
        throws(*old(vm), *final(vm), res, "schedule failed\n\t\tclay异步函数调度失败"@),
{
    throw(vm, "schedule failed\n\t\tclay异步函数调度失败")
}

/// Raises the error for calling an object that is not a function.
pub fn not_a_func(vm: &mut Vm) -> (res: Abort)
    ensures
        throws(*old(vm), *final(vm), res, "not a function\n\t\t不是函数"@),
{
    throw(vm, "not a function\n\t\t不是函数")
}

/// Raises the error for defining property `property_name` on an object of type `type_str`
/// that takes no definitions.
pub fn def_undefable(vm: &mut Vm, type_str: &str, property_name: &str) -> (res: Abort)
    ensures
        throws(*old(vm), *final(vm), res, def_undefable_text(type_str@, property_name@)),
{
    let mut m = String::new();
    push_str(&mut m, "def undefable\n\t\t尝试在");
    push_str(&mut m, property_name);
    push_str(&mut m, "上定义『");
    push_str(&mut m, type_str);
    push_str(&mut m, "』属性");
    throw(vm, m.as_str())
}

/// The error for an object of type `actual` where one of type `expcet` was expected.
pub fn cast_error(expcet: &str, actual: &str) -> (res: Abort)
    ensures
        res matches Abort::ThrowString(s) && s@ == cast_error_text(expcet@, actual@),
{
    let mut m = String::new();
    push_str(&mut m, "cast error\n                类型转换失败\n                期望类型: ");
    push_str(&mut m, expcet);
    push_str(&mut m, ", 实际类型: ");
    push_str(&mut m, actual);
    Abort::ThrowString(m)
}

} // verus!
