use clay::prelude::objects::method::{impl_method, Method};
use clay::prelude::objects::module::Module;
use clay::var::func::Args;
use clay::var::integer::IntSign;
use clay::var::list::{self, List};
use clay::var::meta::{def, get};
use clay::var::{float, integer, string, Kind, Value, Var, VarPtr};
use clay::var::call::{call, Call};
use clay::vm::env::Env;
use clay::prelude::objects::func::Func;
use clay::vm::runtime::Vm;
use clay::vm::signal::Abort;

fn call_ctor(vm: &mut Vm, c: Var, args: Vec<Var>) -> Var {
    let g = vm.global_context.unwrap();
    match call(vm, &Env::new(g), c, &args) {
        Call::Done(Ok(v)) => v,
        _ => panic!("expected a new object"),
    }
}

#[test]
fn each_constructor_object_is_kept() {
    let mut vm = Vm::new().ok().unwrap();
    let i = integer::ctor(&mut vm);
    assert_eq!(integer::ctor(&mut vm), i);
    let f = float::ctor(&mut vm);
    assert_ne!(f, i);
    assert_eq!(float::ctor(&mut vm), f);
    let s = string::ctor(&mut vm);
    assert_eq!(string::ctor(&mut vm), s);
    assert_eq!(vm.heap.slots.len(), 6);
    match &vm.heap.slots[i.ptr].as_ref().unwrap().value {
        Value::Func(fun) => assert_eq!(fun.name(), "Int"),
        _ => panic!("expected a constructor"),
    }
}

#[test]
fn integer_and_number_constructors_make_zero() {
    let mut vm = Vm::new().ok().unwrap();
    for c in [integer::ctor(&mut vm), float::ctor(&mut vm)] {
        let v = call_ctor(&mut vm, c, vec![]);
        match &vm.heap.slots[v.ptr].as_ref().unwrap().value {
            Value::Int(i) => {
                assert_eq!(i.sign, IntSign::NoSign);
                assert!(i.digits.is_empty());
            },
            _ => panic!("expected an integer"),
        }
    }
}

#[test]
fn string_function_and_list_constructors() {
    let mut vm = Vm::new().ok().unwrap();
    let c = string::ctor(&mut vm);
    let v = call_ctor(&mut vm, c, vec![]);
    assert!(matches!(&vm.heap.slots[v.ptr].as_ref().unwrap().value, Value::Str(s) if s.is_empty()));
    let c = clay::var::func::ctor(&mut vm);
    let v = call_ctor(&mut vm, c, vec![]);
    match &vm.heap.slots[v.ptr].as_ref().unwrap().value {
        Value::Func(Func::Script(s)) => {
            assert!(s.code.is_empty() && s.args_names.is_empty());
            assert!(s.name.starts_with("lambda@0x"));
            assert_eq!(s.ctx, Var { ptr: 1 });
        },
        _ => panic!("expected a function"),
    }
    let c = list::ctor(&mut vm);
    let v = call_ctor(&mut vm, c, vec![Var { ptr: 2 }, Var { ptr: 1 }]);
    match &vm.heap.slots[v.ptr].as_ref().unwrap().value {
        Value::List(l) => assert_eq!(l.data, vec![Var { ptr: 2 }, Var { ptr: 1 }]),
        _ => panic!("expected a list"),
    }
}

#[test]
fn a_freed_constructor_is_made_again() {
    let mut vm = Vm::new().ok().unwrap();
    let c = integer::ctor(&mut vm);
    vm.heap.slots[c.ptr] = None;
    let d = integer::ctor(&mut vm);
    assert_ne!(c, d);
    assert_eq!(integer::ctor(&mut vm), d);
}

#[test]
fn args_constructor() {
    let vm = Vm::new().ok().unwrap();
    let a = Args::ctor(&vm);
    assert!(a.get_args().is_empty());
    assert_eq!(a.caller, Var { ptr: 2 });
    assert_eq!(List::new(vec![Var { ptr: 4 }]).data, vec![Var { ptr: 4 }]);
}

#[test]
fn cast_checks_the_type() {
    let p = VarPtr::new(Value::Number(3));
    assert!(matches!(p.cast(Kind::Number), Ok(Value::Number(3))));
    match p.cast(Kind::List) {
        Err(Abort::ThrowString(s)) => assert_eq!(s, "cast error\n                类型转换失败\n                期望类型: clay::var::list::List, 实际类型: f64"),
        _ => panic!("expected an error"),
    }
}

fn message(r: Result<Var, Abort>) -> String {
    match r {
        Err(Abort::ThrowString(s)) => s,
        _ => panic!("expected an error"),
    }
}

#[test]
fn impl_stores_the_function_on_the_instance_meta() {
    let mut vm = Vm::new().ok().unwrap();
    let m = Var::new(Value::Method(Method::with_uuid(None, &"k".to_string())), &mut vm);
    let class = Var::new(Value::Module(Module::named("T".to_string())), &mut vm);
    let meta = Var::new(Value::Module(Module::named("T.meta".to_string())), &mut vm);
    def(&mut vm, class, "#meta", meta).ok().unwrap();
    let f = Var::new(Value::Number(9), &mut vm);
    assert_eq!(impl_method(&mut vm, &vec![m, class, f], "#meta").ok().unwrap(), f);
    assert_eq!(get(&vm, meta, "--k--").ok().unwrap(), f);
}

#[test]
fn impl_reports_its_argument_errors_in_order() {
    let mut vm = Vm::new().ok().unwrap();
    let m = Var::new(Value::Method(Method::with_uuid(None, &"k".to_string())), &mut vm);
    let n = Var::new(Value::Number(0), &mut vm);
    let gone = Var { ptr: 0x20 };
    assert_eq!(message(impl_method(&mut vm, &vec![], "#meta")), "方法实现时缺少方法参数");
    assert_eq!(message(impl_method(&mut vm, &vec![gone], "#meta")), "Error:变量已被回收(0x20)");
    assert_eq!(
        message(impl_method(&mut vm, &vec![n], "#meta")),
        "cast error\n                类型转换失败\n                期望类型: clay::prelude::objects::method::Method, 实际类型: f64"
    );
    assert_eq!(message(impl_method(&mut vm, &vec![m], "#meta")), "方法实现时缺少类型参数");
    assert_eq!(message(impl_method(&mut vm, &vec![m, gone], "#meta")), "Error:变量已被回收(0x20)");
    assert_eq!(message(impl_method(&mut vm, &vec![m, n], "#meta")), "方法实现时缺少函数参数");
}
