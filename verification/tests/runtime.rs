use clay::prelude::objects::module::Module;
use clay::table::Entry;
use clay::var::meta::{def, get, has, resolves};
use clay::var::{Value, Var};
use clay::vm::ctx::{from_map, void_ctx};
use clay::vm::heap::Mark;
use clay::vm::runtime::Vm;
use clay::vm::signal::Abort;

fn message_of(vm: &Vm, a: &Abort) -> String {
    match a {
        Abort::Throw(v) => match &vm.heap.slots[v.ptr].as_ref().unwrap().value {
            Value::Error(e) => e.message.clone(),
            _ => panic!("not an error object"),
        },
        Abort::ThrowString(s) => s.clone(),
        _ => panic!("not a thrown error"),
    }
}

#[test]
fn new_runtime_layout() {
    let vm = Vm::new().ok().unwrap();
    assert_eq!(vm.heap.slots.len(), 3);
    assert!(matches!(vm.heap.slots[0].as_ref().unwrap().value, Value::Void(_)));
    assert!(matches!(vm.heap.slots[1].as_ref().unwrap().value, Value::Ctx(_)));
    assert!(matches!(vm.heap.slots[2].as_ref().unwrap().value, Value::Undef(_)));
    assert_eq!(vm.global_context, Some(Var { ptr: 1 }));
    assert_eq!(vm.undef, Some(Var { ptr: 2 }));
    assert_eq!(vm.id_counter, 1);
}

#[test]
fn global_scope_binds_undef() {
    let vm = Vm::new().ok().unwrap();
    let g = vm.global_context.unwrap();
    assert_eq!(get(&vm, g, "undef").ok().unwrap(), Var { ptr: 2 });
    assert!(has(&vm, g, "undef"));
    assert!(!has(&vm, g, "other"));
}

#[test]
fn reading_past_the_outermost_scope_fails() {
    let vm = Vm::new().ok().unwrap();
    let g = vm.global_context.unwrap();
    let e = get(&vm, g, "missing").err().unwrap();
    assert_eq!(message_of(&vm, &e), "Error(get \"missing\" from undef_ctx):没有作用域了");
}

#[test]
fn unresolved_names_are_quoted_and_escaped() {
    let vm = Vm::new().ok().unwrap();
    let g = vm.global_context.unwrap();
    let e = get(&vm, g, "a\nb").err().unwrap();
    assert_eq!(message_of(&vm, &e), "Error(get \"a\\nb\" from undef_ctx):没有作用域了");
}

#[test]
fn def_then_get_in_nested_scopes() {
    let mut vm = Vm::new().ok().unwrap();
    let g = vm.global_context.unwrap();
    let inner = clay::vm::ctx::default(&mut vm, g);
    let x = Var::new(Value::Number(1.5f64.to_bits()), &mut vm);
    let y = Var::new(Value::Number(2.5f64.to_bits()), &mut vm);
    assert_eq!(def(&mut vm, g, "a", x).ok().unwrap(), x);
    assert_eq!(def(&mut vm, inner, "a", y).ok().unwrap(), y);
    assert_eq!(get(&vm, inner, "a").ok().unwrap(), y);
    assert_eq!(get(&vm, g, "a").ok().unwrap(), x);
    assert_eq!(get(&vm, inner, "undef").ok().unwrap(), Var { ptr: 2 });
}

#[test]
fn set_rebinds_a_local_name_and_otherwise_reads_upward() {
    let mut vm = Vm::new().ok().unwrap();
    let g = vm.global_context.unwrap();
    let inner = clay::vm::ctx::default(&mut vm, g);
    let x = Var::new(Value::Number(1.0f64.to_bits()), &mut vm);
    let y = Var::new(Value::Number(2.0f64.to_bits()), &mut vm);
    def(&mut vm, inner, "b", x).ok().unwrap();
    assert_eq!(clay::var::meta::set(&mut vm, inner, "b", y).ok().unwrap(), y);
    assert_eq!(get(&vm, inner, "b").ok().unwrap(), y);
    let before = vm.heap.slots.len();
    assert_eq!(clay::var::meta::set(&mut vm, inner, "undef", y).ok().unwrap(), Var { ptr: 2 });
    assert_eq!(vm.heap.slots.len(), before);
    assert_eq!(get(&vm, inner, "undef").ok().unwrap(), Var { ptr: 2 });
}

#[test]
fn void_refuses_def_and_set() {
    let mut vm = Vm::new().ok().unwrap();
    let v = Var { ptr: 0 };
    let u = Var { ptr: 2 };
    let e = def(&mut vm, v, "k", u).err().unwrap();
    assert_eq!(message_of(&vm, &e), "Error(def \"k\" to undef_ctx):没有作用域了 (from undef_ctx)");
    let e = clay::var::meta::set(&mut vm, v, "k", u).err().unwrap();
    assert_eq!(message_of(&vm, &e), "Error(set \"k\" to undef_ctx):没有作用域了 (from undef_ctx)");
}

#[test]
fn plain_objects_refuse_def_and_set() {
    let mut vm = Vm::new().ok().unwrap();
    let n = Var::new(Value::Number(0), &mut vm);
    let u = Var { ptr: 2 };
    let e = def(&mut vm, n, "p", u).err().unwrap();
    assert_eq!(message_of(&vm, &e), "def undefable\n\t\t尝试在p上定义『f64』属性");
    let e = clay::var::meta::set(&mut vm, u, "p", u).err().unwrap();
    assert_eq!(message_of(&vm, &e), "set unsetable\n\t\t尝试设置p的属性clay::prelude::objects::undef::Undef");
    assert_eq!(get(&vm, n, "p").ok().unwrap(), u);
}

#[test]
fn modules_export_once() {
    let mut vm = Vm::new().ok().unwrap();
    let m = Var::new(Value::Module(Module::named("m".to_string())), &mut vm);
    let x = Var::new(Value::Number(3), &mut vm);
    assert_eq!(def(&mut vm, m, "x", x).ok().unwrap(), x);
    assert_eq!(get(&vm, m, "x").ok().unwrap(), x);
    assert_eq!(get(&vm, m, "y").ok().unwrap(), Var { ptr: 2 });
    let before = vm.heap.slots.len();
    let e = def(&mut vm, m, "x", x).err().unwrap();
    assert_eq!(message_of(&vm, &e), "x is already defined in module m");
    assert_eq!(vm.heap.slots.len(), before);
    assert_eq!(clay::var::meta::set(&mut vm, m, "x", Var { ptr: 2 }).ok().unwrap(), Var { ptr: 2 });
    assert_eq!(get(&vm, m, "x").ok().unwrap(), Var { ptr: 2 });
}

#[test]
fn anonymous_module_is_named_by_its_slot() {
    let mut vm = Vm::new().ok().unwrap();
    let m = Var::new(Value::Module(Module::anonymous()), &mut vm);
    let x = Var::new(Value::Number(3), &mut vm);
    def(&mut vm, m, "x", x).ok().unwrap();
    let e = def(&mut vm, m, "x", x).err().unwrap();
    assert_eq!(message_of(&vm, &e), "x is already defined in module module@0x3");
    if let Value::Module(md) = &vm.heap.slots[3].as_ref().unwrap().value {
        assert_eq!(md.name(Var { ptr: 26 }), "module@0x1a");
    }
}

#[test]
fn scopes_from_maps() {
    let mut vm = Vm::new().ok().unwrap();
    let x = Var::new(Value::Number(9), &mut vm);
    let map = vec![Entry { key: "k".to_string(), var: x }];
    let c = from_map(&mut vm, map, None);
    assert_eq!(c, Var { ptr: 5 });
    assert!(matches!(vm.heap.slots[4].as_ref().unwrap().value, Value::Void(_)));
    assert_eq!(get(&vm, c, "k").ok().unwrap(), x);
    let vc = void_ctx(&mut vm);
    assert!(matches!(vm.heap.slots[vc.ptr].as_ref().unwrap().mark, Mark::New));
}

#[test]
fn resolves_detects_a_cycle_of_scopes() {
    let mut vm = Vm::new().ok().unwrap();
    let g = vm.global_context.unwrap();
    assert!(resolves(&vm, g, "nothing"));
    let c = clay::vm::ctx::default(&mut vm, Var { ptr: 4 });
    assert_eq!(c, Var { ptr: 3 });
    let d = clay::vm::ctx::default(&mut vm, c);
    assert_eq!(d, Var { ptr: 4 });
    assert!(!resolves(&vm, c, "nothing"));
}

#[test]
fn ids_are_reused_last_in_first_out() {
    let mut vm = Vm::new().ok().unwrap();
    assert_eq!(vm.get_id(), 1);
    assert_eq!(vm.get_id(), 2);
    assert_eq!(vm.get_id(), 3);
    vm.back_id(2);
    vm.back_id(1);
    assert_eq!(vm.get_id(), 1);
    assert_eq!(vm.get_id(), 2);
    assert_eq!(vm.get_id(), 4);
}

#[test]
fn run_code_is_not_available() {
    let vm = Vm::new().ok().unwrap();
    match vm.run_code(clay::vm::Ast::Empty) {
        Err(Abort::ThrowString(s)) => assert_eq!(s, "not implemented yet(Vm::run_code)"),
        _ => panic!("expected an error"),
    }
}

#[test]
fn get_context_is_made_once() {
    let mut vm = Vm::new().ok().unwrap();
    let n = vm.heap.slots.len();
    assert_eq!(vm.get_context(), Var { ptr: 1 });
    assert_eq!(vm.heap.slots.len(), n);
}
