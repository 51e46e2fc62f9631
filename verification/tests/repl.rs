use clay::prelude::repl::{Repl, ReplStep};

fn run_of(step: ReplStep) -> (String, bool) {
    match step {
        ReplStep::Run { input, closed } => (input, closed),
        ReplStep::Exit => panic!("expected an input, got exit"),
        ReplStep::More => panic!("expected an input, got more"),
    }
}

#[test]
fn a_plain_line_is_run_and_counted() {
    let mut r = Repl::new();
    let (input, closed) = run_of(r.step("1+1\n".to_string()));
    assert_eq!(input, "1+1\n");
    assert!(!closed);
    assert_eq!((r.begin, r.end), (0, 2));
    let (input, _) = run_of(r.step("x".to_string()));
    assert_eq!(input, "x");
    assert_eq!((r.begin, r.end), (2, 3));
}

#[test]
fn exit_ends_the_loop_whatever_the_whitespace() {
    let mut r = Repl::new();
    assert!(matches!(r.step(".exit\n".to_string()), ReplStep::Exit));
    assert!(matches!(r.step("  .exit \t".to_string()), ReplStep::Exit));
    assert!(matches!(r.step("\u{3000}.exit\u{85}".to_string()), ReplStep::Exit));
    assert!(!matches!(r.step(".exit;\n".to_string()), ReplStep::Exit));
}

#[test]
fn a_block_is_gathered_until_it_closes() {
    let mut r = Repl::new();
    assert!(matches!(r.step("f = {  \n".to_string()), ReplStep::More));
    assert!(r.in_block);
    assert!(matches!(r.step("a\n".to_string()), ReplStep::More));
    assert!(matches!(r.step(".exit\n".to_string()), ReplStep::More));
    let (input, closed) = run_of(r.step("} \n".to_string()));
    assert_eq!(input, "f = {  \na\n.exit\n} \n");
    assert!(closed);
    assert!(!r.in_block);
    assert!(r.input.is_empty());
    assert_eq!((r.begin, r.end), (0, 5));
}

#[test]
fn line_bookkeeping_must_fit() {
    let r = Repl { input: String::new(), in_block: false, begin: 0, end: usize::MAX - 1 };
    assert!(r.fits("x"));
    assert!(!r.fits("x\n"));
    assert!(r.fits(".exit\n"));
    assert!(r.fits("{\n"));
}
