use clay::parse::t2c::{can_compile, t2c, t2ml, ML};
use clay::var::{Value, Var};
use clay::vm::runtime::Vm;
use clay::vm::{Code, Token};

#[test]
fn keywords_are_told_apart() {
    let vm = Vm::new().ok().unwrap();
    let text = vec![
        Token::Id("if".to_string()),
        Token::Id("\\".to_string()),
        Token::Id("set".to_string()),
        Token::Id("name".to_string()),
        Token::Line(vec![Token::Id("end".to_string()), Token::Number(0)]),
    ];
    let ml = t2ml(&vm, &text).ok().unwrap();
    assert!(matches!(ml[0], ML::If));
    assert!(matches!(ml[1], ML::Lambda));
    assert!(matches!(ml[2], ML::Assign));
    assert!(matches!(&ml[3], ML::Id(s) if s == "name"));
    match &ml[4] {
        ML::Line(b) => {
            assert!(matches!(b[0], ML::End));
            assert!(matches!(b[1], ML::Number(0)));
        },
        _ => panic!("expected a line"),
    }
}

#[test]
fn t2c_compiles_words_numbers_strings_and_braces() {
    let mut vm = Vm::new().ok().unwrap();
    let text = vec![
        Token::Id("x".to_string()),
        Token::Number(2.5f64.to_bits()),
        Token::Large(vec![Token::Str("s".to_string()), Token::Template("{a}".to_string()), Token::The(Var { ptr: 2 })]),
        Token::Middle(vec![Token::Id("ignored".to_string())]),
    ];
    assert!(can_compile(&text));
    let codes = t2c(&text, &mut vm).ok().unwrap();
    assert_eq!(codes.len(), 4);
    assert!(matches!(&codes[0], Code::Id(s) if s == "x"));
    match &codes[1] {
        Code::The(v) => {
            assert_eq!(v.ptr, 3);
            assert!(matches!(vm.heap.slots[3].as_ref().unwrap().value, Value::Number(b) if b == 2.5f64.to_bits()));
        },
        _ => panic!("expected an object"),
    }
    match &codes[2] {
        Code::Block(b) => {
            assert_eq!(b.len(), 3);
            match &b[0] {
                Code::The(v) => assert!(matches!(&vm.heap.slots[v.ptr].as_ref().unwrap().value, Value::Str(s) if s == "s")),
                _ => panic!("expected an object"),
            }
            assert!(matches!(&b[1], Code::Template(t) if t == "{a}"));
            assert!(matches!(&b[2], Code::The(Var { ptr: 2 })));
        },
        _ => panic!("expected a block"),
    }
    assert!(matches!(&codes[3], Code::Array(a) if a.is_empty()));
    assert_eq!(vm.heap.slots.len(), 5);
}

#[test]
fn uncompilable_trees_are_detected() {
    assert!(!can_compile(&vec![Token::Id("then".to_string())]));
    assert!(!can_compile(&vec![Token::Line(vec![])]));
    assert!(!can_compile(&vec![Token::Bracket(vec![Token::Number(1)])]));
    assert!(!can_compile(&vec![Token::Middle(vec![])]));
    assert!(!can_compile(&vec![Token::Large(vec![Token::Id("do".to_string())])]));
    assert!(can_compile(&vec![]));
}

#[test]
fn each_literal_gets_the_next_slot() {
    let mut vm = Vm::new().ok().unwrap();
    let before = vm.heap.slots.len();
    let text = vec![
        Token::Number(1),
        Token::Large(vec![Token::Str("a".to_string()), Token::Id("w".to_string()), Token::Number(2)]),
        Token::Str("b".to_string()),
    ];
    let codes = t2c(&text, &mut vm).ok().unwrap();
    assert_eq!(vm.heap.slots.len(), before + 4);
    assert!(matches!(&codes[0], Code::The(v) if v.ptr == before));
    match &codes[1] {
        Code::Block(b) => {
            assert!(matches!(&b[0], Code::The(v) if v.ptr == before + 1));
            assert!(matches!(&b[2], Code::The(v) if v.ptr == before + 2));
        },
        _ => panic!("expected a block"),
    }
    assert!(matches!(&codes[2], Code::The(v) if v.ptr == before + 3));
}
