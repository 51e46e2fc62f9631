use clay::prelude::objects::array::Array;
use clay::var::meta::def;
use clay::var::{Value, Var};
use clay::vm::gc::{collect, mark_from, ms, sweep};
use clay::vm::heap::{Heap, Mark};
use clay::vm::runtime::Vm;

fn live(vm: &Vm) -> Vec<usize> {
    (0..vm.heap.slots.len()).filter(|i| vm.heap.slots[*i].is_some()).collect()
}

fn mark(vm: &Vm, i: usize) -> Mark {
    vm.heap.slots[i].as_ref().unwrap().mark
}

/// Root scope (slot 1) binds `undef` (2) and an array (4) holding a number (3); slot 5 is a
/// number nothing holds, slot 6 an array holding it.
fn sample() -> Vm {
    let mut vm = Vm::new().ok().unwrap();
    let g = vm.global_context.unwrap();
    let n = Var::new(Value::Number(7), &mut vm);
    let a = Var::new(Value::Array(Array::new(vec![n])), &mut vm);
    def(&mut vm, g, "a", a).ok().unwrap();
    let lost = Var::new(Value::Number(8), &mut vm);
    Var::new(Value::Array(Array::new(vec![lost])), &mut vm);
    vm
}

#[test]
fn first_round_keeps_new_objects() {
    let mut vm = sample();
    let g = vm.global_context.unwrap();
    collect(&mut vm, g);
    assert_eq!(live(&vm), vec![0, 1, 2, 3, 4, 5, 6]);
    for i in 0..7 {
        assert_eq!(mark(&vm, i), Mark::Unmarked);
    }
}

#[test]
fn two_rounds_leave_root_and_what_it_reaches() {
    let mut vm = sample();
    let g = vm.global_context.unwrap();
    collect(&mut vm, g);
    collect(&mut vm, g);
    assert_eq!(live(&vm), vec![1, 2, 3, 4]);
    collect(&mut vm, g);
    assert_eq!(live(&vm), vec![1, 2, 3, 4]);
}

#[test]
fn ms_frees_unmarked_unreachable_objects() {
    let mut vm = sample();
    let g = vm.global_context.unwrap();
    for i in 0..7 {
        vm.heap.set_mark(Var { ptr: i }, Mark::Unmarked);
    }
    ms(&mut vm, g);
    assert_eq!(live(&vm), vec![2, 3, 4]);
}

#[test]
fn marking_reaches_through_arrays() {
    let mut vm = sample();
    for i in 0..7 {
        vm.heap.set_mark(Var { ptr: i }, Mark::Unmarked);
    }
    mark_from(&mut vm.heap, &vec![Var { ptr: 6 }]);
    assert_eq!(mark(&vm, 6), Mark::Marked);
    assert_eq!(mark(&vm, 5), Mark::Marked);
    assert_eq!(mark(&vm, 4), Mark::Unmarked);
    assert_eq!(mark(&vm, 1), Mark::Unmarked);
}

#[test]
fn sweep_frees_exactly_the_unmarked() {
    let mut heap = Heap::new();
    heap.allocate(clay::var::VarPtr::new(Value::Number(1)));
    heap.allocate(clay::var::VarPtr::new(Value::Number(2)));
    heap.set_mark(Var { ptr: 0 }, Mark::Unmarked);
    heap.set_mark(Var { ptr: 1 }, Mark::Marked);
    sweep(&mut heap);
    assert!(heap.slots[0].is_none());
    assert_eq!(heap.slots[1].as_ref().unwrap().mark, Mark::Unmarked);
}

#[test]
fn reachability_check_finds_dangling_references() {
    let mut vm = sample();
    assert!(clay::vm::gc::reach_all_live(&vm.heap, &vec![Var { ptr: 1 }]));
    vm.heap.slots[3] = None;
    assert!(!clay::vm::gc::reach_all_live(&vm.heap, &vec![Var { ptr: 1 }]));
    assert!(clay::vm::gc::reach_all_live(&vm.heap, &vec![Var { ptr: 6 }]));
}
