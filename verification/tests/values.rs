use polish::error::Error;
use polish::span::Span;
use polish::text::decimal_string;
use polish::value::{Value, ValueKind};

#[test]
fn rendering_of_each_kind() {
    assert_eq!(Value::Num(0).to_string(), "0");
    assert_eq!(Value::Num(1203).to_string(), "1203");
    assert_eq!(Value::Num(u64::MAX).to_string(), "18446744073709551615");
    assert_eq!(Value::String("a \"b\"".to_string()).to_string(), "a \"b\"");
    assert_eq!(Value::Bool(true).to_string(), "true");
    assert_eq!(Value::Bool(false).to_string(), "false");
    assert_eq!(Value::Nothing.to_string(), "none");
}

#[test]
fn rendering_of_lists() {
    assert_eq!(Value::List(vec![]).to_string(), "[]");
    assert_eq!(Value::List(vec![Value::Num(1)]).to_string(), "[1]");
    assert_eq!(
        Value::List(vec![Value::Num(1), Value::Bool(false), Value::Nothing]).to_string(),
        "[1, false, none]"
    );
    let nested = Value::List(vec![
        Value::List(vec![Value::Num(1), Value::Num(2)]),
        Value::List(vec![]),
        Value::String("x".to_string()),
    ]);
    assert_eq!(nested.to_string(), "[[1, 2], [], x]");
}

#[test]
fn write_to_appends() {
    let mut out = "value: ".to_string();
    Value::List(vec![Value::Num(10), Value::Num(20)]).write_to(&mut out);
    assert_eq!(out, "value: [10, 20]");
}

#[test]
fn decimal_writing() {
    assert_eq!(decimal_string(0), "0");
    assert_eq!(decimal_string(9), "9");
    assert_eq!(decimal_string(10), "10");
    assert_eq!(decimal_string(1234567890), "1234567890");
}

#[test]
fn kinds_and_their_names() {
    assert_eq!(Value::Num(1).kind(), ValueKind::Num);
    assert_eq!(Value::String(String::new()).kind(), ValueKind::String);
    assert_eq!(Value::Bool(true).kind(), ValueKind::Bool);
    assert_eq!(Value::Nothing.kind(), ValueKind::Nothing);
    assert_eq!(Value::List(vec![]).kind(), ValueKind::List);
    assert_eq!(ValueKind::from(&Value::Num(1)), ValueKind::Num);
    assert_eq!(ValueKind::Num.to_string(), "number");
    assert_eq!(ValueKind::String.to_string(), "string");
    assert_eq!(ValueKind::Bool.to_string(), "boolean");
    assert_eq!(ValueKind::Nothing.to_string(), "none");
    assert_eq!(ValueKind::List.to_string(), "list");
}

#[test]
fn equality_is_structural() {
    let a = Value::List(vec![Value::Num(1), Value::String("s".to_string())]);
    let b = Value::List(vec![Value::Num(1), Value::String("s".to_string())]);
    let c = Value::List(vec![Value::Num(1), Value::String("t".to_string())]);
    let d = Value::List(vec![Value::Num(1)]);
    assert!(a == b);
    assert!(a.same(&b));
    assert!(a != c);
    assert!(a != d);
    assert!(Value::Num(1) != Value::Bool(true));
    assert!(Value::Nothing == Value::Nothing);
    assert!(Value::Num(0) != Value::Nothing);
}

#[test]
fn clone_is_an_independent_copy() {
    let a = Value::List(vec![Value::Num(1), Value::List(vec![Value::Bool(true)])]);
    let mut b = a.clone();
    assert_eq!(a, b);
    if let Value::List(items) = &mut b {
        items.push(Value::Nothing);
    }
    assert_ne!(a, b);
    assert_eq!(a.to_string(), "[1, [true]]");
    assert_eq!(b.to_string(), "[1, [true], none]");
}

#[test]
fn error_message_and_span() {
    let general = Error::General("plain".to_string());
    assert_eq!(general.message(), "plain");
    assert_eq!(general.span(), None);
    let spanned = Error::Spanned("placed".to_string(), Span(2, 5));
    assert_eq!(spanned.message(), "placed");
    assert_eq!(spanned.span(), Some(Span(2, 5)));
}

#[test]
fn span_union_and_len() {
    assert_eq!(Span(3, 7).union(Span(5, 12)), Span(3, 12));
    assert_eq!(Span(5, 12).union(Span(3, 7)), Span(3, 12));
    assert_eq!(Span(1, 9).union(Span(2, 3)), Span(1, 9));
    assert_eq!(Span(4, 4).union(Span(4, 4)), Span(4, 4));
    assert_eq!(Span(3, 12).len(), 9);
    assert_eq!(Span(4, 4).len(), 0);
}
