use clay::cell::Cell;
use clay::prelude::math::add;
use clay::prelude::objects::array::Array;
use clay::prelude::objects::func::{Func, Native, Script};
use clay::prelude::objects::method::Method;
use clay::prelude::objects::string::to_str_target;
use clay::prelude::to_str::global_init;
use clay::var::boolean::Bool;
use clay::var::call::{call, Call};
use clay::var::integer::{Int, IntSign};
use clay::var::meta::{def, get};
use clay::var::{Value, Var, VarPtr};
use clay::vm::env::Env;
use clay::vm::error::{cast_error, not_a_func, VmError};
use clay::vm::runtime::Vm;
use clay::vm::signal::Abort;

fn is_uuid_v4(u: &str) -> bool {
    let c: Vec<char> = u.chars().collect();
    c.len() == 36
        && c.iter().enumerate().all(|(i, ch)| if [8, 13, 18, 23].contains(&i) { *ch == '-' } else { ch.is_ascii_hexdigit() && !ch.is_ascii_uppercase() })
        && c[14] == '4'
        && "89ab".contains(c[19])
}

#[test]
fn method_keys_come_from_fresh_uuids() {
    let m = Method::new(Some("show".to_string()));
    assert_eq!(m.name(), "show");
    let k = m.uukey();
    assert!(k.starts_with("--") && k.ends_with("--"));
    assert!(is_uuid_v4(&k[2..k.len() - 2]));
    let other = Method::new(None);
    assert_ne!(other.uukey(), m.uukey());
    assert_eq!(other.name(), format!("method@{}", other.uukey()));
}

#[test]
fn method_with_given_uuid() {
    let m = Method::with_uuid(None, &"u".to_string());
    assert_eq!(m.uukey(), "--u--");
    assert_eq!(m.name(), "method@--u--");
}

#[test]
fn method_target_is_read_from_the_first_argument() {
    let mut vm = Vm::new().ok().unwrap();
    let m = Method::with_uuid(None, &"k".to_string());
    let obj = Var::new(Value::Module(clay::prelude::objects::module::Module::named("t".to_string())), &mut vm);
    let imp = Var::new(Value::Number(5), &mut vm);
    def(&mut vm, obj, "--k--", imp).ok().unwrap();
    assert_eq!(m.target(&vm, &vec![obj]).ok().unwrap(), imp);
    match m.target(&vm, &vec![]) {
        Err(Abort::ThrowString(s)) => assert_eq!(s, "方法调用时缺少对象参数"),
        _ => panic!("expected an error"),
    }
}

#[test]
fn calls_are_dispatched_by_kind() {
    let mut vm = Vm::new().ok().unwrap();
    let g = vm.global_context.unwrap();
    let env = Env::new(g);
    let nat = Var::new(Value::Func(Func::Native(Native::new(4, Some("puts".to_string())))), &mut vm);
    assert!(matches!(call(&mut vm, &env, nat, &vec![]), Call::Native(4)));
    let body = Script::new(Some("f".to_string()), vec!["p".to_string(), "q".to_string()], g, vec![]);
    let f = Var::new(Value::Func(Func::Script(body)), &mut vm);
    let arg = Var::new(Value::Number(1), &mut vm);
    match call(&mut vm, &env, f, &vec![arg]) {
        Call::Done(Ok(v)) => assert_eq!(v, Var { ptr: 2 }),
        _ => panic!("expected the undefined value"),
    }
    assert_eq!(get(&vm, g, "p").ok().unwrap(), arg);
    assert!(get(&vm, g, "q").is_err());
    let u = Var { ptr: 2 };
    match call(&mut vm, &env, u, &vec![]) {
        Call::Done(Err(Abort::Throw(e))) => match &vm.heap.slots[e.ptr].as_ref().unwrap().value {
            Value::Error(err) => assert_eq!(err.message, "not a function\n\t\t不是函数"),
            _ => panic!("expected an error object"),
        },
        _ => panic!("expected an error"),
    }
}

#[test]
fn method_call_leads_to_its_implementation() {
    let mut vm = Vm::new().ok().unwrap();
    let g = vm.global_context.unwrap();
    let env = Env::new(g);
    let m = Var::new(Value::Method(Method::with_uuid(None, &"z".to_string())), &mut vm);
    let obj = Var::new(Value::Module(clay::prelude::objects::module::Module::named("o".to_string())), &mut vm);
    let imp = Var::new(Value::Number(5), &mut vm);
    def(&mut vm, obj, "--z--", imp).ok().unwrap();
    assert!(matches!(call(&mut vm, &env, m, &vec![obj]), Call::Again(v) if v == imp));
}

#[test]
fn script_scope_binds_parameters() {
    let mut vm = Vm::new().ok().unwrap();
    let g = vm.global_context.unwrap();
    let s = Script::new(None, vec!["a".to_string(), "b".to_string(), "a".to_string()], g, vec![]);
    assert!(s.name.starts_with("lambda@0x"));
    assert!(s.name.len() > 9 && s.name[9..].chars().all(|c| c.is_ascii_hexdigit() && !c.is_ascii_uppercase()));
    let x = Var::new(Value::Number(1), &mut vm);
    let y = Var::new(Value::Number(2), &mut vm);
    let c = s.cons_ctx(&mut vm, &vec![x, y]);
    assert_eq!(get(&vm, c, "b").ok().unwrap(), y);
    assert_eq!(get(&vm, c, "a").ok().unwrap(), Var { ptr: 2 });
    match &vm.heap.slots[c.ptr].as_ref().unwrap().value {
        Value::Ctx(ctx) => assert_eq!(ctx.upper, g),
        _ => panic!("expected a scope"),
    }
}

#[test]
fn function_names() {
    assert_eq!(Func::Native(Native::new(1, Some("n".to_string()))).name(), "n");
    assert_eq!(Func::Native(Native::new(255, None)).name(), "NativeFunc@0xff");
    let s = Script::new(Some("f".to_string()), vec![], Var { ptr: 0 }, vec![]);
    assert_eq!(Func::Script(s).name(), "f");
}

fn int_object(vm: &mut Vm, sign: IntSign, digits: Vec<u32>) -> Var {
    Var::new(Value::Int(Int { sign, digits }), vm)
}

#[test]
fn add_sums_integers_with_carry() {
    let mut vm = Vm::new().ok().unwrap();
    let a = int_object(&mut vm, IntSign::Plus, vec![u32::MAX]);
    let b = int_object(&mut vm, IntSign::Plus, vec![1]);
    let r = add(&mut vm, &vec![a, b]).ok().unwrap();
    match &vm.heap.slots[r.ptr].as_ref().unwrap().value {
        Value::Int(i) => {
            assert_eq!(i.sign, IntSign::Plus);
            assert_eq!(i.digits, vec![0, 1]);
        },
        _ => panic!("expected an integer"),
    }
}

#[test]
fn add_handles_signs() {
    let mut vm = Vm::new().ok().unwrap();
    let a = int_object(&mut vm, IntSign::Minus, vec![5]);
    let b = int_object(&mut vm, IntSign::Plus, vec![3]);
    let c = int_object(&mut vm, IntSign::Plus, vec![5]);
    let r = add(&mut vm, &vec![a, b]).ok().unwrap();
    match &vm.heap.slots[r.ptr].as_ref().unwrap().value {
        Value::Int(i) => {
            assert_eq!(i.sign, IntSign::Minus);
            assert_eq!(i.digits, vec![2]);
        },
        _ => panic!("expected an integer"),
    }
    let r = add(&mut vm, &vec![a, c]).ok().unwrap();
    match &vm.heap.slots[r.ptr].as_ref().unwrap().value {
        Value::Int(i) => {
            assert_eq!(i.sign, IntSign::NoSign);
            assert!(i.digits.is_empty());
        },
        _ => panic!("expected an integer"),
    }
}

#[test]
fn add_reports_missing_and_wrong_arguments() {
    let mut vm = Vm::new().ok().unwrap();
    let i = int_object(&mut vm, IntSign::Plus, vec![1]);
    let n = Var::new(Value::Number(0), &mut vm);
    let msg = |r: Result<Var, Abort>| match r {
        Err(Abort::ThrowString(s)) => s,
        _ => panic!("expected an error"),
    };
    assert_eq!(msg(add(&mut vm, &vec![])), "X呢?");
    assert_eq!(msg(add(&mut vm, &vec![i])), "Y呢?");
    assert_eq!(msg(add(&mut vm, &vec![n, i])), "X不是整数");
    assert_eq!(msg(add(&mut vm, &vec![i, n])), "Y不是整数");
}

#[test]
fn global_init_defines_str() {
    let mut vm = Vm::new().ok().unwrap();
    global_init(&mut vm);
    let g = vm.global_context.unwrap();
    let v = get(&vm, g, "str").ok().unwrap();
    match &vm.heap.slots[v.ptr].as_ref().unwrap().value {
        Value::Method(m) => assert_eq!(m.name(), "str"),
        _ => panic!("expected a method"),
    }
}

#[test]
fn to_str_target_reads_to_str() {
    let mut vm = Vm::new().ok().unwrap();
    let g = vm.global_context.unwrap();
    let md = Var::new(Value::Module(clay::prelude::objects::module::Module::named("v".to_string())), &mut vm);
    let f = Var::new(Value::Func(Func::Native(Native::new(0, None))), &mut vm);
    def(&mut vm, md, "toStr", f).ok().unwrap();
    def(&mut vm, g, "val", md).ok().unwrap();
    assert_eq!(to_str_target(&vm, g, "val").ok().unwrap(), f);
    assert_eq!(to_str_target(&vm, g, "undef").ok().unwrap(), Var { ptr: 2 });
}

#[test]
fn cast_str_names_the_actual_type() {
    let p = VarPtr::new(Value::Str("s".to_string()));
    assert_eq!(p.cast_str().ok().unwrap(), "s");
    let q = VarPtr::new(Value::Bool(Bool::new(true)));
    match q.cast_str() {
        Err(Abort::ThrowString(s)) => assert_eq!(s, "cast error\n                类型转换失败\n                期望类型: alloc::string::String, 实际类型: clay::var::boolean::Bool"),
        _ => panic!("expected an error"),
    }
    assert!(matches!(cast_error("a", "b"), Abort::ThrowString(s) if s.ends_with("期望类型: a, 实际类型: b")));
}

#[test]
fn array_text_repeats_the_first_element() {
    let a = Array::new(vec![Var { ptr: 0 }, Var { ptr: 1 }]);
    assert_eq!(a.to_text(&vec!["1".to_string(), "2".to_string()]), "[1, 1, 2]");
    assert_eq!(clay::prelude::objects::array::new().to_text(&vec![]), "[]");
}

#[test]
fn cell_initialises_once() {
    let mut c: Cell<Option<u32>> = Cell::none();
    assert_eq!(*c.get_or_init(|| 3), 3);
    assert_eq!(*c.get_or_init(|| 4), 3);
    let mut d = Cell::new(5u32);
    *d.borrow_mut() = 6;
    assert_eq!(*d.borrow(), 6);
}

#[test]
fn error_objects_show_their_cause() {
    let e = VmError::new("boom", None);
    assert_eq!(e.to_text(), "Error: boom");
    let e = e.with_source("io".to_string());
    assert_eq!(e.to_text(), "Error: boom\n\tfrom: io");
    let mut vm = Vm::new().ok().unwrap();
    assert!(matches!(not_a_func(&mut vm), Abort::Throw(Var { ptr: 3 })));
}

#[test]
fn abort_names_and_texts() {
    assert_eq!(Abort::Throw(Var { ptr: 0 }).as_string(), "Throe");
    assert_eq!(Abort::ThrowString("m".to_string()).as_string(), "m");
    assert_eq!(Abort::Nop.as_string(), "Nop");
    assert_eq!(Abort::Throw(Var { ptr: 0 }).to_text(), "todo");
    assert_eq!(Abort::Break(Var { ptr: 0 }).to_text(), "[Break]");
    assert_eq!(Abort::Continue.to_text(), "[Continue]");
}

#[test]
fn add_target_reads_the_add_property() {
    let mut vm = Vm::new().ok().unwrap();
    let x = Var::new(Value::Module(clay::prelude::objects::module::Module::named("x".to_string())), &mut vm);
    let y = Var::new(Value::Number(1), &mut vm);
    let f = Var::new(Value::Func(Func::Native(Native::new(9, None))), &mut vm);
    def(&mut vm, x, "#add", f).ok().unwrap();
    assert_eq!(clay::prelude::math::add_target(&vm, &vec![x, y]).ok().unwrap(), (f, y));
    assert_eq!(clay::prelude::math::add_target(&vm, &vec![y, x]).ok().unwrap(), (Var { ptr: 2 }, x));
    match clay::prelude::math::add_target(&vm, &vec![x]) {
        Err(Abort::ThrowString(s)) => assert_eq!(s, "add: missing argument 1"),
        _ => panic!("expected an error"),
    }
    match clay::prelude::math::add_target(&vm, &vec![]) {
        Err(Abort::ThrowString(s)) => assert_eq!(s, "add: missing argument 0"),
        _ => panic!("expected an error"),
    }
}

#[test]
fn the_new_integer_is_zero() {
    let z = Int::zero();
    assert_eq!(z.sign, IntSign::NoSign);
    assert!(z.digits.is_empty());
}

#[test]
fn add_reports_a_collected_argument_after_the_count() {
    let mut vm = Vm::new().ok().unwrap();
    let i = int_object(&mut vm, IntSign::Plus, vec![1]);
    let gone = Var { ptr: 0x3e7 };
    let msg = |r: Result<Var, Abort>| match r {
        Err(Abort::ThrowString(s)) => s,
        _ => panic!("expected an error"),
    };
    assert_eq!(msg(add(&mut vm, &vec![gone])), "Y呢?");
    assert_eq!(msg(add(&mut vm, &vec![gone, i])), "Error:变量已被回收(0x3e7)");
    assert_eq!(msg(add(&mut vm, &vec![i, gone])), "Error:变量已被回收(0x3e7)");
    let n = Var::new(Value::Number(0), &mut vm);
    assert_eq!(msg(add(&mut vm, &vec![n, gone])), "Error:变量已被回收(0x3e7)");
}

#[test]
fn unbox_gives_the_object_or_the_collected_error() {
    let mut vm = Vm::new().ok().unwrap();
    let n = Var::new(Value::Number(7), &mut vm);
    assert!(matches!(n.unbox(&vm), Ok(Value::Number(7))));
    match (Var { ptr: 16 }).unbox(&vm) {
        Err(Abort::ThrowString(s)) => assert_eq!(s, "Error:变量已被回收(0x10)"),
        _ => panic!("expected an error"),
    }
}
