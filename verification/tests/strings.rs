use clay::prelude::objects::string::{escape, template, template_names};
use clay::text::str_eq;
use clay::vm::signal::Abort;
use clay::vm::Operstor;

#[test]
fn escape_plain_text_is_unchanged() {
    assert_eq!(escape("hello world").unwrap(), "hello world");
    assert_eq!(escape("").unwrap(), "");
}

#[test]
fn escape_resolves_every_known_sequence() {
    assert_eq!(escape("a\\nb").unwrap(), "a\nb");
    assert_eq!(escape("\\r\\t\\0").unwrap(), "\r\t\0");
    assert_eq!(escape("\\\"q\\'").unwrap(), "\"q'");
    assert_eq!(escape("back\\\\slash").unwrap(), "back\\slash");
    assert_eq!(escape("中\\n文").unwrap(), "中\n文");
}

#[test]
fn escape_rejects_a_trailing_backslash() {
    assert_eq!(escape("abc\\").unwrap_err(), "unterminated escape sequence");
}

#[test]
fn escape_rejects_an_unknown_sequence() {
    assert_eq!(escape("a\\qb").unwrap_err(), "unknown escape sequence: \\q");
    assert_eq!(escape("\\x\\").unwrap_err(), "unknown escape sequence: \\x");
}

#[test]
fn template_names_lists_placeholders_in_order() {
    let (names, closed) = template_names("hi {name}, you are {age}!");
    assert_eq!(names, vec!["name".to_string(), "age".to_string()]);
    assert!(closed);
    let (names, closed) = template_names("no placeholders }");
    assert!(names.is_empty());
    assert!(closed);
    let (names, closed) = template_names("{a} then {b");
    assert_eq!(names, vec!["a".to_string()]);
    assert!(!closed);
}

#[test]
fn template_fills_placeholders() {
    let r = template("hi {name}, you are {age}!", &vec!["Ann".to_string(), "7".to_string()]).ok().unwrap();
    assert_eq!(r, "hi Ann, you are 7!");
    let r = template("{x}{y}", &vec!["1".to_string(), "2".to_string()]).ok().unwrap();
    assert_eq!(r, "12");
}

#[test]
fn template_without_braces_is_unchanged() {
    let r = template("plain text }", &vec![]).ok().unwrap();
    assert_eq!(r, "plain text }");
}

#[test]
fn template_reports_an_unclosed_brace() {
    match template("{a} then {b", &vec!["A".to_string()]) {
        Err(Abort::ThrowString(s)) => assert_eq!(s, "unterminated template"),
        _ => panic!("expected an error"),
    }
}

#[test]
fn str_eq_compares_characters() {
    assert!(str_eq("abc", "abc"));
    assert!(!str_eq("abc", "abd"));
    assert!(!str_eq("ab", "abc"));
    assert!(str_eq("", ""));
}

#[test]
fn operator_symbols() {
    assert_eq!(Operstor::Add.to_string(), "+");
    assert_eq!(Operstor::IntDiv.to_string(), "//");
    assert_eq!(Operstor::Pow.to_string(), "**");
    assert_eq!(Operstor::Le.to_string(), "<=");
    assert_eq!(Operstor::Or.to_string(), "||");
    assert_eq!(Operstor::Neg.to_string(), "neg");
}

