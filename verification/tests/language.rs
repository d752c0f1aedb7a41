use polish::env::{default_env, Environment};
use polish::error::Error;
use polish::program::{load_source, run, run_main};
use polish::span::Span;
use polish::value::Value;

fn evaluate(env: &Environment, line: &str) -> Result<Value, Error> {
    let mut out = Vec::new();
    run(line, env, &mut out)
}

fn num_list(items: &[u64]) -> Value {
    Value::List(items.iter().map(|n| Value::Num(*n)).collect())
}

#[test]
fn factorial_refers_to_itself() {
    let mut env = default_env();
    load_source("\\fac n -> if = n 0 1 * n fac - n 1", &mut env).unwrap();
    assert_eq!(evaluate(&env, "fac 4").unwrap(), Value::Num(24));
    assert_eq!(evaluate(&env, "fac 0").unwrap(), Value::Num(1));
}

#[test]
fn conditional_skips_the_untaken_branch() {
    let env = default_env();
    assert_eq!(evaluate(&env, "if true 1 / 1 0").unwrap(), Value::Num(1));
    assert_eq!(evaluate(&env, "if false / 1 0 2").unwrap(), Value::Num(2));
    assert!(evaluate(&env, "if true / 1 0 2").is_err());
}

#[test]
fn conditional_does_not_print_from_the_untaken_branch() {
    let env = default_env();
    let mut out = Vec::new();
    let value = run("if < 1 2 print 10 print 20", &env, &mut out).unwrap();
    assert_eq!(value, Value::Nothing);
    assert_eq!(out, vec!["10".to_string()]);
}

#[test]
fn conditional_wants_a_boolean() {
    let env = default_env();
    let err = evaluate(&env, "if 1 2 3").unwrap_err();
    assert_eq!(err.message(), "wrong argument type for index 1");
}

#[test]
fn parameter_shadows_global_function() {
    let mut env = default_env();
    load_source("\\x -> 100\n\\f x -> + x x", &mut env).unwrap();
    assert_eq!(evaluate(&env, "f 4").unwrap(), Value::Num(8));
    assert_eq!(evaluate(&env, "x").unwrap(), Value::Num(100));
}

#[test]
fn fuse_joins_lists_and_scalars() {
    let env = default_env();
    assert_eq!(evaluate(&env, "fuse pair 1 2 pair 3 4").unwrap(), num_list(&[1, 2, 3, 4]));
    assert_eq!(evaluate(&env, "fuse pair 1 2 3").unwrap(), num_list(&[1, 2, 3]));
    assert_eq!(evaluate(&env, "fuse 1 pair 2 3").unwrap(), num_list(&[1, 2, 3]));
    assert_eq!(evaluate(&env, "fuse 1 2").unwrap(), num_list(&[1, 2]));
}

#[test]
fn adding_number_and_boolean_names_both_kinds() {
    let env = default_env();
    let err = evaluate(&env, "+ 1 true").unwrap_err();
    assert!(matches!(err, Error::General(_)));
    assert_eq!(err.message(), "types number and boolean cannot be added together");
    assert!(err.message().contains("number"));
    assert!(err.message().contains("boolean"));
}

#[test]
fn head_of_a_non_list_is_a_typed_argument_error() {
    let env = default_env();
    let err = evaluate(&env, "head 5").unwrap_err();
    assert_eq!(err.message(), "wrong argument type for index 1");
    let err = evaluate(&env, "tail true").unwrap_err();
    assert_eq!(err.message(), "wrong argument type for index 1");
}

#[test]
fn second_operand_of_the_wrong_kind_is_index_two() {
    let env = default_env();
    let err = evaluate(&env, "- 1 true").unwrap_err();
    assert_eq!(err.message(), "wrong argument type for index 2");
    let err = evaluate(&env, "* \"a\" 2").unwrap_err();
    assert_eq!(err.message(), "wrong argument type for index 1");
}

#[test]
fn division_by_zero_is_an_error() {
    let env = default_env();
    let err = evaluate(&env, "/ 5 0").unwrap_err();
    assert_eq!(err.message(), "attempt to divide by zero");
    let err = evaluate(&env, "% 5 0").unwrap_err();
    assert_eq!(err.message(), "attempt to calculate the remainder with a divisor of zero");
}

#[test]
fn overflow_and_underflow_are_errors() {
    let env = default_env();
    let err = evaluate(&env, "- 0 1").unwrap_err();
    assert_eq!(err.message(), "attempt to subtract with overflow");
    let err = evaluate(&env, "+ 18446744073709551615 1").unwrap_err();
    assert_eq!(err.message(), "attempt to add with overflow");
    let err = evaluate(&env, "* 4294967296 4294967296").unwrap_err();
    assert_eq!(err.message(), "attempt to multiply with overflow");
    assert_eq!(
        evaluate(&env, "+ 18446744073709551614 1").unwrap(),
        Value::Num(18446744073709551615)
    );
}

#[test]
fn arithmetic_and_comparisons() {
    let env = default_env();
    assert_eq!(evaluate(&env, "+ 2 3").unwrap(), Value::Num(5));
    assert_eq!(evaluate(&env, "- 7 3").unwrap(), Value::Num(4));
    assert_eq!(evaluate(&env, "* 6 7").unwrap(), Value::Num(42));
    assert_eq!(evaluate(&env, "/ 17 5").unwrap(), Value::Num(3));
    assert_eq!(evaluate(&env, "% 17 5").unwrap(), Value::Num(2));
    assert_eq!(evaluate(&env, "< 1 2").unwrap(), Value::Bool(true));
    assert_eq!(evaluate(&env, "> 1 2").unwrap(), Value::Bool(false));
    assert_eq!(evaluate(&env, "= 2 2").unwrap(), Value::Bool(true));
    assert_eq!(evaluate(&env, "+ * 2 3 - 10 4").unwrap(), Value::Num(12));
    assert_eq!(
        evaluate(&env, "+ \"ab\" \"cd\"").unwrap(),
        Value::String("abcd".to_string())
    );
}

#[test]
fn constants() {
    let env = default_env();
    assert_eq!(evaluate(&env, "true").unwrap(), Value::Bool(true));
    assert_eq!(evaluate(&env, "false").unwrap(), Value::Bool(false));
    assert_eq!(evaluate(&env, "none").unwrap(), Value::Nothing);
}

#[test]
fn lists() {
    let env = default_env();
    assert_eq!(evaluate(&env, "pair 1 2").unwrap(), num_list(&[1, 2]));
    assert_eq!(evaluate(&env, "head pair 1 2").unwrap(), Value::Num(1));
    assert_eq!(evaluate(&env, "tail pair 1 2").unwrap(), num_list(&[2]));
    assert_eq!(evaluate(&env, "tail tail pair 1 2").unwrap(), num_list(&[]));
    let err = evaluate(&env, "head tail tail pair 1 2").unwrap_err();
    assert_eq!(err.message(), "head of an empty list");
    let err = evaluate(&env, "tail tail tail pair 1 2").unwrap_err();
    assert_eq!(err.message(), "tail of an empty list");
}

#[test]
fn print_writes_the_rendering_and_returns_none() {
    let env = default_env();
    let mut out = Vec::new();
    let value = run("print fuse pair 1 \"two\" pair true none", &env, &mut out).unwrap();
    assert_eq!(value, Value::Nothing);
    assert_eq!(out, vec!["[1, two, true, none]".to_string()]);
}

#[test]
fn arguments_print_from_left_to_right_before_the_error() {
    let env = default_env();
    let mut out = vec!["earlier".to_string()];
    let err = run("pair print 1 pair print 2 / 1 0", &env, &mut out).unwrap_err();
    assert_eq!(err.message(), "attempt to divide by zero");
    assert_eq!(out, vec!["earlier".to_string(), "1".to_string(), "2".to_string()]);
}

#[test]
fn forward_reference_is_rejected() {
    let mut env = default_env();
    let err = load_source("\\first n -> second n\n\\second n -> n", &mut env).unwrap_err();
    assert_eq!(err.message(), "cannot find function or local second");
    assert_eq!(err.span(), Some(Span(12, 18)));
    let mut env = default_env();
    load_source("\\second n -> n\n\\first n -> second n", &mut env).unwrap();
    assert_eq!(evaluate(&env, "first 9").unwrap(), Value::Num(9));
}

#[test]
fn call_with_too_few_arguments_leaves_a_dangling_error() {
    let env = default_env();
    let err = evaluate(&env, "+ 1").unwrap_err();
    assert!(matches!(err, Error::General(_)));
    assert_eq!(err.message(), "expected expression, found <eof>");
    let err = evaluate(&env, "+ * 2 3").unwrap_err();
    assert_eq!(err.message(), "expected expression, found <eof>");
    let err = evaluate(&env, "").unwrap_err();
    assert_eq!(err.message(), "expected expression, found <eof>");
}

#[test]
fn tokens_after_the_expression_are_not_looked_at() {
    let env = default_env();
    assert_eq!(evaluate(&env, "+ 1 2 3 4").unwrap(), Value::Num(3));
}

#[test]
fn arity_comes_from_the_declaration() {
    let mut env = default_env();
    load_source(
        "\\three a b c -> + a + b c\n\\zero -> 7\n\\main -> three zero 1 three 1 1 1",
        &mut env,
    )
    .unwrap();
    let mut out = Vec::new();
    assert_eq!(run_main(&env, &mut out).unwrap(), Value::Num(11));
}

#[test]
fn program_without_main_fails() {
    let mut env = default_env();
    load_source("\\f x -> x", &mut env).unwrap();
    let mut out = Vec::new();
    let err = run_main(&env, &mut out).unwrap_err();
    assert_eq!(err.message(), "no main function found in file");
    let mut env = default_env();
    load_source("\\main x -> x", &mut env).unwrap();
    let err = run_main(&env, &mut out).unwrap_err();
    assert_eq!(err.message(), "no main function found in file");
}

#[test]
fn main_prints_in_order() {
    let mut env = default_env();
    load_source(
        "# counts down\n\\count n -> if = n 0 none pair print n count - n 1\n\\main -> count 3",
        &mut env,
    )
    .unwrap();
    let mut out = Vec::new();
    run_main(&env, &mut out).unwrap();
    assert_eq!(out, vec!["3".to_string(), "2".to_string(), "1".to_string()]);
}

#[test]
fn redeclaration_replaces_the_function() {
    let mut env = default_env();
    let before = env.size();
    load_source("\\f -> 1", &mut env).unwrap();
    load_source("\\f -> 2", &mut env).unwrap();
    assert_eq!(env.size(), before + 1);
    assert_eq!(evaluate(&env, "f").unwrap(), Value::Num(2));
}

#[test]
fn declaration_errors() {
    let mut env = default_env();
    let err = load_source("f x -> x", &mut env).unwrap_err();
    assert_eq!(err.message(), "expected declaration found name");
    assert_eq!(err.span(), Some(Span(0, 1)));
    let err = load_source("\\f x", &mut env).unwrap_err();
    assert!(matches!(err, Error::General(_)));
    assert_eq!(err.message(), "expected arrow, found <eof>");
    let err = load_source("\\f x 1 -> x", &mut env).unwrap_err();
    assert_eq!(err.message(), "expected arrow, found num");
    assert_eq!(err.span(), Some(Span(5, 6)));
    let err = load_source("\\f x -> -> x", &mut env).unwrap_err();
    assert_eq!(err.message(), "unexpected token <arrow>");
    assert_eq!(err.span(), Some(Span(8, 10)));
    let err = load_source("\\f x -> \\g", &mut env).unwrap_err();
    assert_eq!(err.message(), "unexpected token declaration");
}

#[test]
fn failed_declaration_leaves_its_placeholder() {
    let mut env = default_env();
    let before = env.size();
    load_source("\\ok -> 1\n\\broken -> missing", &mut env).unwrap_err();
    assert_eq!(env.size(), before + 2);
    assert_eq!(evaluate(&env, "ok").unwrap(), Value::Num(1));
    let err = evaluate(&env, "broken").unwrap_err();
    assert_eq!(err.message(), "attemped to evaluate temp expr: this is a BUG");
}

#[test]
fn text_that_cannot_be_split_changes_nothing() {
    let mut env = default_env();
    let before = env.size();
    load_source("\\ok -> 1\n\\bad -> 12x", &mut env).unwrap_err();
    assert_eq!(env.size(), before);
}

#[test]
fn redeclaration_with_another_arity_breaks_earlier_callers() {
    let mut env = default_env();
    load_source("\\f x -> x\n\\g -> f 1", &mut env).unwrap();
    assert_eq!(evaluate(&env, "g").unwrap(), Value::Num(1));
    load_source("\\f -> 5", &mut env).unwrap();
    assert_eq!(evaluate(&env, "g").unwrap(), Value::Num(5));
    load_source("\\f x y -> y", &mut env).unwrap();
    let err = evaluate(&env, "g").unwrap_err();
    assert_eq!(err.message(), "argument index out of range: this is a BUG");
}

#[test]
fn recursion_through_two_declarations() {
    let mut env = default_env();
    load_source(
        "\\range n -> if = n 0 pair 0 0 fuse range - n 1 n\n\\sum l -> if = head l 0 0 + head l sum tail l",
        &mut env,
    )
    .unwrap();
    assert_eq!(evaluate(&env, "tail tail range 3").unwrap(), num_list(&[1, 2, 3]));
}
