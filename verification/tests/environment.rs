use polish::env::{
    default_env, Environment, Function, FunctionBody, IntoSymbol, LazySystemFunction, Symbol,
    SystemFunction,
};
use polish::interpreter::{eval, eval_};
use polish::parser::{parse_expr, parse_file, Expression};
use polish::tokenizer::tokenize;
use polish::value::Value;

#[test]
fn new_environment_is_empty() {
    let env = Environment::new();
    assert_eq!(env.size(), 0);
    assert_eq!(env.get_symbol("print"), None);
    assert!(env.get_function("print").is_none());
    assert!(env.get_entry("print").is_none());
}

#[test]
fn default_environment_holds_the_built_in_functions() {
    let env = default_env();
    assert_eq!(env.size(), 17);
    let expected: [(&str, usize); 17] = [
        ("print", 1),
        ("true", 0),
        ("false", 0),
        ("+", 2),
        ("-", 2),
        ("*", 2),
        ("/", 2),
        ("%", 2),
        ("<", 2),
        (">", 2),
        ("if", 3),
        ("=", 2),
        ("none", 0),
        ("pair", 2),
        ("head", 1),
        ("tail", 1),
        ("fuse", 2),
    ];
    for (index, (name, arity)) in expected.iter().enumerate() {
        let (symbol, func) = env.get_entry(name).unwrap();
        assert_eq!(symbol, Symbol(index));
        assert_eq!(func.args(), *arity);
        assert!(!matches!(func.body(), FunctionBody::Normal(_)));
    }
    assert!(matches!(
        env.get_function("if").unwrap().body(),
        FunctionBody::LazySystem(LazySystemFunction::If)
    ));
    assert!(matches!(
        env.get_function("fuse").unwrap().body(),
        FunctionBody::System(SystemFunction::Fuse)
    ));
}

#[test]
fn interning_is_idempotent() {
    let mut env = Environment::new();
    env.insert_function("a", Function::new(0, SystemFunction::True));
    env.insert_function("b", Function::new(1, SystemFunction::Head));
    let a = env.get_symbol("a").unwrap();
    let b = env.get_symbol("b").unwrap();
    assert_eq!(a, Symbol(0));
    assert_eq!(b, Symbol(1));
    env.insert_function("a", Function::new(2, SystemFunction::Add));
    assert_eq!(env.get_symbol("a"), Some(a));
    assert_eq!(env.get_symbol("b"), Some(b));
    assert_eq!(env.size(), 2);
    assert_eq!(env.get_function(a).unwrap().args(), 2);
    assert_eq!(env.get_function("a").unwrap().args(), 2);
    assert_eq!(env.get_function(b).unwrap().args(), 1);
    assert_eq!(env.get_symbol("c"), None);
    assert!(env.get_function(Symbol(2)).is_none());
}

#[test]
fn into_symbol_by_name_and_by_symbol() {
    let env = default_env();
    assert_eq!("+".into_symbol(&env), Some(Symbol(3)));
    assert_eq!("nope".into_symbol(&env), None);
    assert_eq!(Symbol(99).into_symbol(&env), Some(Symbol(99)));
}

#[test]
fn function_bodies_convert() {
    let f = Function::new(1, Expression::Arg(0));
    assert_eq!(f.args(), 1);
    assert!(matches!(f.body(), FunctionBody::Normal(Expression::Arg(0))));
    let g = Function::new(2, SystemFunction::Pair);
    assert!(matches!(g.body(), FunctionBody::System(SystemFunction::Pair)));
    let h = Function::new(3, LazySystemFunction::If);
    assert!(matches!(h.body(), FunctionBody::LazySystem(LazySystemFunction::If)));
    let k = Function::new(0, FunctionBody::Normal(Expression::Temp));
    assert!(matches!(k.body(), FunctionBody::Normal(Expression::Temp)));
}

#[test]
fn parser_builds_calls_with_exactly_arity_arguments() {
    let env = default_env();
    let tokens = tokenize("+ * 2 3 head pair 4 5 6").unwrap();
    let (expr, next) = parse_expr(&tokens, 0, &vec![], &env).unwrap();
    assert_eq!(next, 8);
    let Expression::App(plus, args) = expr else { panic!("not a call") };
    assert_eq!(Some(plus), env.get_symbol("+"));
    assert_eq!(args.len(), 2);
    let Expression::App(times, inner) = &args[0] else { panic!("not a call") };
    assert_eq!(Some(*times), env.get_symbol("*"));
    assert!(matches!(inner[0], Expression::Literal(Value::Num(2))));
    assert!(matches!(inner[1], Expression::Literal(Value::Num(3))));
    let Expression::App(head, inner) = &args[1] else { panic!("not a call") };
    assert_eq!(Some(*head), env.get_symbol("head"));
    assert_eq!(inner.len(), 1);
    let Expression::App(pair, inner) = &inner[0] else { panic!("not a call") };
    assert_eq!(Some(*pair), env.get_symbol("pair"));
    assert_eq!(inner.len(), 2);
}

#[test]
fn parser_starts_where_it_is_told() {
    let env = default_env();
    let tokens = tokenize("1 + 2 3 \"s\"").unwrap();
    let (expr, next) = parse_expr(&tokens, 1, &vec![], &env).unwrap();
    assert_eq!(next, 4);
    assert!(matches!(expr, Expression::App(_, _)));
    let (expr, next) = parse_expr(&tokens, 4, &vec![], &env).unwrap();
    assert_eq!(next, 5);
    assert!(matches!(expr, Expression::Literal(Value::String(s)) if s == "s"));
    let err = parse_expr(&tokens, 5, &vec![], &env).unwrap_err();
    assert_eq!(err.message(), "expected expression, found <eof>");
    let err = parse_expr(&tokens, 50, &vec![], &env).unwrap_err();
    assert_eq!(err.message(), "expected expression, found <eof>");
}

#[test]
fn parameters_become_positions() {
    let env = default_env();
    let params = vec!["a".to_string(), "head".to_string(), "a".to_string()];
    let tokens = tokenize("head a").unwrap();
    let (expr, next) = parse_expr(&tokens, 0, &params, &env).unwrap();
    assert_eq!(next, 1);
    assert!(matches!(expr, Expression::Arg(1)));
    let (expr, _) = parse_expr(&tokens, 1, &params, &env).unwrap();
    assert!(matches!(expr, Expression::Arg(0)));
}

#[test]
fn parse_file_registers_each_declaration() {
    let mut env = default_env();
    let tokens = tokenize("\\id x -> x \\two -> id 2").unwrap();
    parse_file(&tokens, &mut env).unwrap();
    assert_eq!(env.size(), 19);
    let id = env.get_function("id").unwrap();
    assert_eq!(id.args(), 1);
    assert!(matches!(id.body(), FunctionBody::Normal(Expression::Arg(0))));
    let two = env.get_function("two").unwrap();
    assert_eq!(two.args(), 0);
    let FunctionBody::Normal(body) = two.body() else { panic!("not declared in the language") };
    let mut out = Vec::new();
    assert_eq!(eval(body, &env, &mut out).unwrap(), Value::Num(2));
}

#[test]
fn evaluation_reads_the_frame() {
    let env = default_env();
    let frame = vec![Value::Num(5), Value::Bool(true)];
    let mut out = Vec::new();
    assert_eq!(eval_(&Expression::Arg(1), &env, &frame, 0, &mut out).unwrap(), Value::Bool(true));
    let err = eval_(&Expression::Arg(2), &env, &frame, 0, &mut out).unwrap_err();
    assert_eq!(err.message(), "argument index out of range: this is a BUG");
    let err = eval_(&Expression::Temp, &env, &frame, 0, &mut out).unwrap_err();
    assert_eq!(err.message(), "attemped to evaluate temp expr: this is a BUG");
    let err = eval_(&Expression::App(Symbol(1000), vec![]), &env, &frame, 0, &mut out).unwrap_err();
    assert_eq!(err.message(), "call of an unknown function: this is a BUG");
    let plus = env.get_symbol("+").unwrap();
    let err = eval_(&Expression::App(plus, vec![Expression::Arg(0)]), &env, &frame, 0, &mut out)
        .unwrap_err();
    assert_eq!(err.message(), "too few arguments for a built-in function: this is a BUG");
    let cond = env.get_symbol("if").unwrap();
    let err = eval_(&Expression::App(cond, vec![Expression::Arg(1)]), &env, &frame, 0, &mut out)
        .unwrap_err();
    assert_eq!(err.message(), "too few arguments for a built-in function: this is a BUG");
    assert!(out.is_empty());
}

#[test]
fn call_depth_is_bounded_by_the_budget() {
    let mut env = default_env();
    let tokens = tokenize("\\down n -> if = n 0 0 down - n 1").unwrap();
    parse_file(&tokens, &mut env).unwrap();
    let tokens = tokenize("down 5").unwrap();
    let (expr, _) = parse_expr(&tokens, 0, &vec![], &env).unwrap();
    let mut out = Vec::new();
    assert_eq!(eval_(&expr, &env, &vec![], 6, &mut out).unwrap(), Value::Num(0));
    let err = eval_(&expr, &env, &vec![], 5, &mut out).unwrap_err();
    assert_eq!(err.message(), "maximum call depth exceeded");
    let tokens = tokenize("+ 1 2").unwrap();
    let (expr, _) = parse_expr(&tokens, 0, &vec![], &env).unwrap();
    assert_eq!(eval_(&expr, &env, &vec![], 0, &mut out).unwrap(), Value::Num(3));
}
