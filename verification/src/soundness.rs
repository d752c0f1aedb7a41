//! What the parser builds, the evaluator can evaluate: in an environment
//! whose functions are all sound, a well-formed expression never fails with
//! an error that tells of a malformed tree or table.

use crate::builtins::{
    add_overflow, apply_model, cannot_add, divide_by_zero, head_of_empty, missing_argument,
    multiply_overflow, remainder_by_zero, subtract_overflow, tail_of_empty, uses,
    wrong_argument_type,
};
use crate::env::{
    builtin_functions, builtin_names, default_env_model, lemma_builtin_names_differ, lemma_declare,
    lemma_last_declaration_wins,
    BodyView, EnvironmentView, FunctionView, LazySystemFunction, SystemFunction,
};
use crate::error::ErrorView;
use crate::interner::MAX_SYMBOLS;
use crate::interpreter::{
    argument_out_of_range, eval_args_model, eval_model, placeholder_evaluated, too_deep,
    unknown_function, MAX_CALL_DEPTH,
};
use crate::parser::{
    defined, lemma_names_end_bounds, lemma_parse_advances, lemma_parsed_is_well_formed,
    missing_expression, names_between, names_end, parse_args_model, parse_expr_model,
    parse_file_model, position, remaining, stub, well_formed_expr, ExprView,
};
use crate::program::{main_body, no_main, run_main_model, run_model};
use crate::text::{decimal, digit_char};
use crate::tokenizer::{byte_len, lemma_lex_spans, lex, TokenView};
use crate::value::{ValueKind, ValueView};
use vstd::prelude::*;

verus! {

/// Whether an error tells of a tree or a table that is not as the parser
/// leaves them, and not of anything in the program that is run.
pub open spec fn is_bug(e: ErrorView) -> bool {
    ||| e == placeholder_evaluated()
    ||| e == argument_out_of_range()
    ||| e == unknown_function()
    ||| e == missing_argument()
}

/// Whether a function can be called with as many arguments as it is
/// declared with: a body in the language is well-formed for that many
/// parameters, and a built-in uses no more values than that.
pub open spec fn sound_function(func: FunctionView, env: EnvironmentView) -> bool {
    match func.body {
        BodyView::Normal(body) => well_formed_expr(body, env, func.args as nat),
        BodyView::System(f) => uses(f) <= func.args,
        BodyView::LazySystem(_) => 3 <= func.args,
    }
}

/// Whether every function of `env` is sound.
pub open spec fn consistent(env: EnvironmentView) -> bool {
    forall|k: usize| env.funcs.contains_key(k) ==> sound_function(#[trigger] env.funcs[k], env)
}

proof fn lemma_bug_messages(e: ErrorView)
    requires
        is_bug(e),
    ensures
        e is General,
        e.message().len() > 0,
        e.message().last() == 'G',
{
    reveal_strlit("attemped to evaluate temp expr: this is a BUG");
    reveal_strlit("argument index out of range: this is a BUG");
    reveal_strlit("call of an unknown function: this is a BUG");
    reveal_strlit("too few arguments for a built-in function: this is a BUG");
}

proof fn lemma_decimal_ends_in_digit(n: nat)
    ensures
        decimal(n).len() > 0,
        decimal(n).last() == digit_char(n % 10),
    decreases n,
{
    if n >= 10 {
        lemma_decimal_ends_in_digit(n / 10);
    }
}

proof fn lemma_wrong_argument_type_is_no_bug(index: nat)
    ensures
        !is_bug(wrong_argument_type(index)),
{
    let e = wrong_argument_type(index);
    lemma_decimal_ends_in_digit(index);
    assert(e.message().last() == decimal(index).last());
    if is_bug(e) {
        lemma_bug_messages(e);
    }
}

proof fn lemma_cannot_add_is_no_bug(left: ValueKind, right: ValueKind)
    ensures
        !is_bug(cannot_add(left, right)),
{
    let e = cannot_add(left, right);
    reveal_strlit(" cannot be added together");
    assert(e.message().last() == 'r');
    if is_bug(e) {
        lemma_bug_messages(e);
    }
}

proof fn lemma_plain_errors_are_no_bugs()
    ensures
        !is_bug(add_overflow()),
        !is_bug(subtract_overflow()),
        !is_bug(multiply_overflow()),
        !is_bug(divide_by_zero()),
        !is_bug(remainder_by_zero()),
        !is_bug(head_of_empty()),
        !is_bug(tail_of_empty()),
        !is_bug(too_deep()),
{
    reveal_strlit("attempt to add with overflow");
    reveal_strlit("attempt to subtract with overflow");
    reveal_strlit("attempt to multiply with overflow");
    reveal_strlit("attempt to divide by zero");
    reveal_strlit("attempt to calculate the remainder with a divisor of zero");
    reveal_strlit("head of an empty list");
    reveal_strlit("tail of an empty list");
    reveal_strlit("maximum call depth exceeded");
    if is_bug(add_overflow()) {
        lemma_bug_messages(add_overflow());
    }
    if is_bug(subtract_overflow()) {
        lemma_bug_messages(subtract_overflow());
    }
    if is_bug(multiply_overflow()) {
        lemma_bug_messages(multiply_overflow());
    }
    if is_bug(divide_by_zero()) {
        lemma_bug_messages(divide_by_zero());
    }
    if is_bug(remainder_by_zero()) {
        lemma_bug_messages(remainder_by_zero());
    }
    if is_bug(head_of_empty()) {
        lemma_bug_messages(head_of_empty());
    }
    if is_bug(tail_of_empty()) {
        lemma_bug_messages(tail_of_empty());
    }
    if is_bug(too_deep()) {
        lemma_bug_messages(too_deep());
    }
}

/// A built-in function that is handed as many values as it uses gives no
/// error that tells of a bug.
pub proof fn lemma_apply_is_sound(f: SystemFunction, args: Seq<ValueView>)
    requires
        uses(f) <= args.len(),
    ensures
        apply_model(f, args) matches Err(e) ==> !is_bug(e),
{
    lemma_plain_errors_are_no_bugs();
    lemma_wrong_argument_type_is_no_bug(1);
    lemma_wrong_argument_type_is_no_bug(2);
    if uses(f) == 2 {
        lemma_cannot_add_is_no_bug(args[0].kind(), args[1].kind());
    }
}

/// Evaluating a well-formed expression in a consistent environment, with a
/// frame of as many values as the expression has parameters, never gives an
/// error that tells of a bug: no body that is not known is evaluated, no
/// parameter is missing from the frame, no called symbol is without a
/// function, and no built-in function is short of values.
pub proof fn lemma_evaluation_is_sound(
    expr: ExprView,
    env: EnvironmentView,
    frame: Seq<ValueView>,
    depth: nat,
)
    requires
        consistent(env),
        well_formed_expr(expr, env, frame.len()),
    ensures
        eval_model(expr, env, frame, depth).result matches Err(e) ==> !is_bug(e),
    decreases depth, expr, 0nat,
{
    lemma_plain_errors_are_no_bugs();
    lemma_wrong_argument_type_is_no_bug(1);
    match expr {
        ExprView::App(symbol, args) => {
            let func = env.function_of(symbol)->Some_0;
            assert(sound_function(env.funcs[symbol.0], env));
            match func.body {
                BodyView::LazySystem(LazySystemFunction::If) => {
                    assert(well_formed_expr(args[0], env, frame.len()));
                    assert(well_formed_expr(args[1], env, frame.len()));
                    assert(well_formed_expr(args[2], env, frame.len()));
                    lemma_evaluation_is_sound(args[0], env, frame, depth);
                    lemma_evaluation_is_sound(args[1], env, frame, depth);
                    lemma_evaluation_is_sound(args[2], env, frame, depth);
                },
                BodyView::System(f) => {
                    lemma_arguments_are_sound(args, 0, env, frame, depth);
                    match eval_args_model(args, 0, env, frame, depth).result {
                        Ok(values) => {
                            lemma_apply_is_sound(f, values);
                        },
                        Err(_) => {},
                    }
                },
                BodyView::Normal(body) => {
                    lemma_arguments_are_sound(args, 0, env, frame, depth);
                    match eval_args_model(args, 0, env, frame, depth).result {
                        Ok(values) => {
                            if depth > 0 {
                                lemma_evaluation_is_sound(body, env, values, (depth - 1) as nat);
                            }
                        },
                        Err(_) => {},
                    }
                },
            }
        },
        _ => {},
    }
}

/// Evaluating a row of well-formed arguments in a consistent environment
/// gives one value for each, or an error that tells of no bug.
pub proof fn lemma_arguments_are_sound(
    args: Seq<ExprView>,
    from: int,
    env: EnvironmentView,
    frame: Seq<ValueView>,
    depth: nat,
)
    requires
        consistent(env),
        0 <= from <= args.len(),
        forall|i: int| 0 <= i < args.len() ==> well_formed_expr(#[trigger] args[i], env, frame.len()),
    ensures
        match eval_args_model(args, from, env, frame, depth).result {
            Ok(values) => values.len() == args.len() - from,
            Err(e) => !is_bug(e),
        },
    decreases depth, args, args.len() - from,
{
    if from < args.len() {
        lemma_evaluation_is_sound(args[from], env, frame, depth);
        lemma_arguments_are_sound(args, from + 1, env, frame, depth);
    }
}

/// An expression stays well-formed in an environment that has every
/// function of the old one, each with the arity it had.
pub proof fn lemma_well_formed_survives(
    expr: ExprView,
    env: EnvironmentView,
    later: EnvironmentView,
    arity: nat,
)
    requires
        well_formed_expr(expr, env, arity),
        forall|k: usize| #[trigger]
            env.funcs.contains_key(k) ==> later.funcs.contains_key(k) && later.funcs[k].args
                == env.funcs[k].args,
    ensures
        well_formed_expr(expr, later, arity),
    decreases expr,
{
    match expr {
        ExprView::App(symbol, args) => {
            assert(env.funcs.contains_key(symbol.0));
            assert forall|i: int| 0 <= i < args.len() implies well_formed_expr(
                #[trigger] args[i],
                later,
                arity,
            ) by {
                lemma_well_formed_survives(args[i], env, later, arity);
            }
        },
        _ => {},
    }
}

/// Declaring a function keeps an environment consistent, where the name is
/// new or had the same arity before, and the function is sound in what
/// results.
pub proof fn lemma_declare_keeps_consistency(
    env: EnvironmentView,
    name: Seq<char>,
    func: FunctionView,
)
    requires
        env.well_formed(),
        env.has_room_for(name),
        consistent(env),
        env.entry(name) matches Some((_, before)) ==> before.args == func.args,
        sound_function(func, env.declare(name, func)),
    ensures
        consistent(env.declare(name, func)),
{
    let later = env.declare(name, func);
    lemma_declare(env, name, func);
    assert forall|k: usize| later.funcs.contains_key(k) implies sound_function(
        #[trigger] later.funcs[k],
        later,
    ) by {
        if later.funcs[k] != func {
            assert(env.funcs.contains_key(k));
            assert(sound_function(env.funcs[k], env));
            match env.funcs[k].body {
                BodyView::Normal(body) => {
                    lemma_well_formed_survives(body, env, later, env.funcs[k].args as nat);
                },
                _ => {},
            }
        }
    }
}

/// A declaration keeps an environment consistent, where its name is new or
/// had the same arity before: the body was parsed with the name declared
/// ahead of it, and is well-formed also once the name has its body.
pub proof fn lemma_declaration_keeps_consistency(
    env: EnvironmentView,
    name: Seq<char>,
    arity: nat,
    body: ExprView,
)
    requires
        env.well_formed(),
        env.has_room_for(name),
        arity <= usize::MAX,
        consistent(env),
        env.entry(name) matches Some((_, before)) ==> before.args == arity,
        well_formed_expr(body, env.declare(name, stub(arity)), arity),
    ensures
        consistent(env.declare(name, stub(arity)).declare(name, defined(arity, body))),
{
    let early = env.declare(name, stub(arity));
    let later = early.declare(name, defined(arity, body));
    lemma_declare(env, name, stub(arity));
    lemma_declare(early, name, defined(arity, body));
    lemma_last_declaration_wins(env, name, stub(arity), defined(arity, body));
    lemma_well_formed_survives(body, early, later, arity);
    lemma_declare_keeps_consistency(env, name, defined(arity, body));
}

/// Whether the declarations from the token of index `pos` on declare names
/// that `env` does not know, each of them once.
pub open spec fn declares_afresh(tokens: Seq<TokenView>, pos: int, env: EnvironmentView) -> bool {
    &&& forall|i: int|
        pos <= i < tokens.len() && (#[trigger] tokens[i]) is Decl ==> !env.names.contains(
            tokens[i]->Decl_0,
        )
    &&& forall|i: int, j: int|
        pos <= i < j < tokens.len() && (#[trigger] tokens[i]) is Decl && (#[trigger] tokens[j]) is Decl
            ==> tokens[i]->Decl_0 != tokens[j]->Decl_0
}

/// Loading declarations of new names keeps an environment consistent.
pub proof fn lemma_loading_keeps_consistency(tokens: Seq<TokenView>, pos: int, env: EnvironmentView)
    requires
        0 <= pos,
        tokens.len() <= usize::MAX,
        env.well_formed(),
        env.names.len() + (tokens.len() - pos) <= MAX_SYMBOLS,
        consistent(env),
        declares_afresh(tokens, pos, env),
        parse_file_model(tokens, pos, env).error is None,
    ensures
        consistent(parse_file_model(tokens, pos, env).env),
    decreases tokens.len() - pos,
{
    if pos < tokens.len() {
        let name = tokens[pos]->Decl_0;
        let arrow = names_end(tokens, pos + 1);
        let params = names_between(tokens, pos + 1, arrow);
        lemma_names_end_bounds(tokens, pos + 1);
        let early = env.declare(name, stub(params.len()));
        lemma_declare(env, name, stub(params.len()));
        lemma_parse_advances(tokens, arrow + 1, params, early);
        lemma_parsed_is_well_formed(tokens, arrow + 1, params, early);
        match parse_expr_model(tokens, arrow + 1, params, early) {
            Ok((body, used)) => {
                let next = arrow + 1 + used;
                let later = early.declare(name, defined(params.len(), body));
                lemma_declare(early, name, defined(params.len(), body));
                lemma_declaration_keeps_consistency(env, name, params.len(), body);
                assert(later.names =~= env.names.push(name));
                assert forall|i: int|
                    next <= i < tokens.len() && (#[trigger] tokens[i]) is Decl implies !later.names.contains(
                    tokens[i]->Decl_0,
                ) by {
                    assert(tokens[pos] is Decl);
                    assert(!env.names.contains(tokens[i]->Decl_0));
                    assert(tokens[i]->Decl_0 != name);
                }
                lemma_loading_keeps_consistency(tokens, next, later);
            },
            Err(_) => {},
        }
    }
}

/// The environment of the built-in functions is well-formed and
/// consistent.
pub proof fn lemma_default_env_is_consistent()
    ensures
        default_env_model().well_formed(),
        consistent(default_env_model()),
{
    let env = default_env_model();
    lemma_builtin_names_differ();
    assert(env.names =~= builtin_names());
    assert forall|k: usize| env.funcs.contains_key(k) implies sound_function(
        #[trigger] env.funcs[k],
        env,
    ) by {
        let func = builtin_functions()[k as int];
        assert(!(func.body is Normal));
    }
}

/// In a consistent environment, running the program gives no error that
/// tells of a bug.
pub proof fn lemma_run_main_is_sound(env: EnvironmentView)
    requires
        consistent(env),
    ensures
        run_main_model(env).result matches Err(e) ==> !is_bug(e),
{
    match main_body(env) {
        Some(body) => {
            let symbol = env.symbol_of("main"@)->Some_0;
            assert(sound_function(env.funcs[symbol.0], env));
            lemma_evaluation_is_sound(
                body,
                env,
                Seq::empty(),
                MAX_CALL_DEPTH as nat,
            );
        },
        None => {
            reveal_strlit("no main function found in file");
            if is_bug(no_main()) {
                lemma_bug_messages(no_main());
            }
        },
    }
}

/// No error of the parser tells of a bug.
pub proof fn lemma_parse_errors_are_no_bugs(
    tokens: Seq<TokenView>,
    pos: int,
    params: Seq<Seq<char>>,
    env: EnvironmentView,
)
    ensures
        parse_expr_model(tokens, pos, params, env) matches Err(e) ==> !is_bug(e),
    decreases remaining(tokens, pos), 0nat, 0nat,
{
    lemma_missing_expression_is_no_bug();
    if 0 <= pos < tokens.len() {
        match tokens[pos] {
            TokenView::Name(name, _) => {
                if position(params, name, 0) is None {
                    match env.entry(name) {
                        Some((_, func)) => {
                            lemma_argument_errors_are_no_bugs(
                                tokens,
                                pos + 1,
                                params,
                                env,
                                func.args as nat,
                            );
                        },
                        None => {},
                    }
                }
            },
            _ => {},
        }
    }
}

proof fn lemma_argument_errors_are_no_bugs(
    tokens: Seq<TokenView>,
    pos: int,
    params: Seq<Seq<char>>,
    env: EnvironmentView,
    count: nat,
)
    requires
        0 <= pos <= tokens.len(),
    ensures
        parse_args_model(tokens, pos, params, env, count) matches Err(e) ==> !is_bug(e),
    decreases remaining(tokens, pos), 1nat, count,
{
    lemma_missing_expression_is_no_bug();
    if count > 0 {
        lemma_parse_errors_are_no_bugs(tokens, pos, params, env);
        lemma_parse_advances(tokens, pos, params, env);
        match parse_expr_model(tokens, pos, params, env) {
            Ok((_, used)) => {
                lemma_argument_errors_are_no_bugs(
                    tokens,
                    pos + used,
                    params,
                    env,
                    (count - 1) as nat,
                );
            },
            Err(_) => {},
        }
    }
}

proof fn lemma_missing_expression_is_no_bug()
    ensures
        !is_bug(missing_expression()),
{
    reveal_strlit("expected expression, found <eof>");
    if is_bug(missing_expression()) {
        lemma_bug_messages(missing_expression());
    }
}

/// In a consistent environment, evaluating a line gives no error that
/// tells of a bug.
pub proof fn lemma_run_is_sound(line: Seq<char>, env: EnvironmentView)
    requires
        consistent(env),
    ensures
        run_model(line, env).result matches Err(e) ==> !is_bug(e),
{
    match lex(line) {
        Ok(tokens) => {
            lemma_parsed_is_well_formed(tokens, 0, Seq::empty(), env);
            match parse_expr_model(tokens, 0, Seq::empty(), env) {
                Ok((expr, _)) => {
                    lemma_evaluation_is_sound(
                        expr,
                        env,
                        Seq::empty(),
                        MAX_CALL_DEPTH as nat,
                    );
                },
                Err(e) => {
                    lemma_parse_errors_are_no_bugs(tokens, 0, Seq::empty(), env);
                },
            }
        },
        Err(e) => {
            if byte_len(line) <= usize::MAX {
                lemma_lex_spans(line, 0);
            }
            reveal_strlit("source text too long");
            if is_bug(e) {
                lemma_bug_messages(e);
            }
        },
    }
}

} // verus!
