//! The evaluator: a walk over an expression tree that reads parameters from
//! a flat frame of values and calls functions through the environment.

use crate::builtins::{
    apply, apply_model, general, missing_argument, printed, wrong_argument_type, wrong_type,
};
use crate::env::{
    BodyView, Environment, EnvironmentView, FunctionBody, LazySystemFunction, Symbol,
};
use crate::error::{Error, ErrorView};
use crate::parser::{exprs_view, lemma_exprs_view, well_formed_expr, ExprView, Expression};
use crate::soundness::{consistent, is_bug, lemma_evaluation_is_sound};
use crate::text::strings_view;
use crate::value::{lemma_values_view, lemma_values_view_push, values_view, Value, ValueView};
use vstd::prelude::*;

verus! {

/// The depth of calls that [`eval`] allows: more than any machine's stack.
pub const MAX_CALL_DEPTH: usize = usize::MAX;

/// The error of a body that is evaluated before it is known.
pub open spec fn placeholder_evaluated() -> ErrorView {
    ErrorView::General("attemped to evaluate temp expr: this is a BUG"@)
}

/// The error of a parameter that the frame does not hold.
pub open spec fn argument_out_of_range() -> ErrorView {
    ErrorView::General("argument index out of range: this is a BUG"@)
}

/// The error of a call of a symbol that has no function.
pub open spec fn unknown_function() -> ErrorView {
    ErrorView::General("call of an unknown function: this is a BUG"@)
}

/// The error of calls nested deeper than the depth allowed.
pub open spec fn too_deep() -> ErrorView {
    ErrorView::General("maximum call depth exceeded"@)
}

/// What an evaluation gives: the value or the error, and the lines written
/// on the way, in order.
pub struct Outcome {
    pub result: Result<ValueView, ErrorView>,
    pub output: Seq<Seq<char>>,
}

/// What the evaluation of a row of arguments gives.
pub struct ArgsOutcome {
    pub result: Result<Seq<ValueView>, ErrorView>,
    pub output: Seq<Seq<char>>,
}

impl Outcome {
    /// An outcome that wrote nothing.
    pub open spec fn silent(result: Result<ValueView, ErrorView>) -> Outcome {
        Outcome { result, output: Seq::empty() }
    }

    /// The same outcome, reached after the lines `earlier` were written.
    pub open spec fn after(self, earlier: Seq<Seq<char>>) -> Outcome {
        Outcome { result: self.result, output: earlier + self.output }
    }
}

impl ArgsOutcome {
    /// The same outcome, reached after the values `done` were computed and
    /// the lines `earlier` written.
    pub open spec fn after(self, done: Seq<ValueView>, earlier: Seq<Seq<char>>) -> ArgsOutcome {
        ArgsOutcome {
            result: match self.result {
                Ok(more) => Ok(done + more),
                Err(e) => Err(e),
            },
            output: earlier + self.output,
        }
    }
}

/// What evaluating `expr` gives, with `frame` as the arguments of the call
/// in scope and at most `depth` nested calls of declared functions.
///
/// A call of a declared function or of a strict built-in evaluates all its
/// arguments first, from left to right. The conditional evaluates its first
/// argument and then only the branch that it selects.
pub open spec fn eval_model(
    expr: ExprView,
    env: EnvironmentView,
    frame: Seq<ValueView>,
    depth: nat,
) -> Outcome
    decreases depth, expr, 0nat,
{
    match expr {
        ExprView::Arg(index) => if index < frame.len() {
            Outcome::silent(Ok(frame[index as int]))
        } else {
            Outcome::silent(Err(argument_out_of_range()))
        },
        ExprView::Literal(value) => Outcome::silent(Ok(value)),
        ExprView::Temp => Outcome::silent(Err(placeholder_evaluated())),
        ExprView::App(symbol, args) => match env.function_of(symbol) {
            None => Outcome::silent(Err(unknown_function())),
            Some(func) => match func.body {
                BodyView::LazySystem(LazySystemFunction::If) => if args.len() < 3 {
                    Outcome::silent(Err(missing_argument()))
                } else {
                    let cond = eval_model(args[0], env, frame, depth);
                    match cond.result {
                        Err(_) => cond,
                        Ok(ValueView::Bool(true)) => eval_model(args[1], env, frame, depth).after(
                            cond.output,
                        ),
                        Ok(ValueView::Bool(false)) => eval_model(args[2], env, frame, depth).after(
                            cond.output,
                        ),
                        Ok(_) => Outcome { result: Err(wrong_argument_type(1)), output: cond.output },
                    }
                },
                BodyView::System(f) => {
                    let given = eval_args_model(args, 0, env, frame, depth);
                    match given.result {
                        Err(e) => Outcome { result: Err(e), output: given.output },
                        Ok(values) => Outcome {
                            result: apply_model(f, values),
                            output: given.output + printed(f, values),
                        },
                    }
                },
                BodyView::Normal(body) => {
                    let given = eval_args_model(args, 0, env, frame, depth);
                    match given.result {
                        Err(e) => Outcome { result: Err(e), output: given.output },
                        Ok(values) => if depth == 0 {
                            Outcome { result: Err(too_deep()), output: given.output }
                        } else {
                            eval_model(body, env, values, (depth - 1) as nat).after(given.output)
                        },
                    }
                },
            },
        },
    }
}

/// What evaluating the expressions of `args` from index `from` on gives,
/// from left to right, up to the first error.
pub open spec fn eval_args_model(
    args: Seq<ExprView>,
    from: int,
    env: EnvironmentView,
    frame: Seq<ValueView>,
    depth: nat,
) -> ArgsOutcome
    decreases depth, args, args.len() - from,
{
    if from < 0 || from >= args.len() {
        ArgsOutcome { result: Ok(Seq::empty()), output: Seq::empty() }
    } else {
        let first = eval_model(args[from], env, frame, depth);
        match first.result {
            Err(e) => ArgsOutcome { result: Err(e), output: first.output },
            Ok(value) => eval_args_model(args, from + 1, env, frame, depth).after(
                seq![value],
                first.output,
            ),
        }
    }
}

/// The conditional never evaluates the branch that it does not take: what
/// stands there changes neither the result nor what is written.
pub proof fn lemma_untaken_branch_is_ignored(
    env: EnvironmentView,
    frame: Seq<ValueView>,
    depth: nat,
    symbol: Symbol,
    cond: ExprView,
    taken: ExprView,
    untaken: ExprView,
    choice: bool,
)
    requires
        env.function_of(symbol) matches Some(func) && func.body == BodyView::LazySystem(
            LazySystemFunction::If,
        ),
        eval_model(cond, env, frame, depth).result == Ok::<ValueView, ErrorView>(
            ValueView::Bool(choice),
        ),
    ensures
        eval_model(
            ExprView::App(
                symbol,
                if choice {
                    seq![cond, taken, untaken]
                } else {
                    seq![cond, untaken, taken]
                },
            ),
            env,
            frame,
            depth,
        ) == eval_model(taken, env, frame, depth).after(eval_model(cond, env, frame, depth).output),
{
}

/// Whether what an evaluation returned and wrote is what `outcome` says.
pub open spec fn agrees(
    res: Result<Value, Error>,
    before: Seq<String>,
    after: Seq<String>,
    outcome: Outcome,
) -> bool {
    &&& strings_view(after) == strings_view(before) + outcome.output
    &&& match res {
        Ok(value) => outcome.result == Ok::<ValueView, ErrorView>(value@),
        Err(e) => outcome.result == Err::<ValueView, ErrorView>(e@),
    }
}

proof fn lemma_args_after(
    rest: ArgsOutcome,
    value: ValueView,
    line: Seq<Seq<char>>,
    done: Seq<ValueView>,
    earlier: Seq<Seq<char>>,
)
    ensures
        rest.after(seq![value], line).after(done, earlier) == rest.after(
            done.push(value),
            earlier + line,
        ),
{
    let left = rest.after(seq![value], line).after(done, earlier);
    let right = rest.after(done.push(value), earlier + line);
    assert(left.output =~= right.output);
    match rest.result {
        Ok(more) => {
            assert(done + (seq![value] + more) =~= done.push(value) + more);
        },
        Err(_) => {},
    }
}

/// Evaluates the arguments of a call, from left to right, up to the first
/// error.
fn eager_eval(
    params: &Vec<Expression>,
    env: &Environment,
    args: &Vec<Value>,
    depth: usize,
    out: &mut Vec<String>,
) -> (res: Result<Vec<Value>, Error>)
    requires
        env@.well_formed(),
    ensures
        ({
            let outcome = eval_args_model(
                exprs_view(params@),
                0,
                env@,
                values_view(args@),
                depth as nat,
            );
            &&& strings_view(final(out)@) == strings_view(old(out)@) + outcome.output
            &&& match res {
                Ok(values) => outcome.result == Ok::<Seq<ValueView>, ErrorView>(
                    values_view(values@),
                ),
                Err(e) => outcome.result == Err::<Seq<ValueView>, ErrorView>(e@),
            }
        }),
    decreases depth, params,
{
    let ghost pv = exprs_view(params@);
    let ghost frame = values_view(args@);
    let ghost lines = strings_view(out@);
    let ghost written = Seq::<Seq<char>>::empty();
    let mut values: Vec<Value> = Vec::new();
    let mut i: usize = 0;
    proof {
        lemma_exprs_view(params@);
        let whole = eval_args_model(pv, 0, env@, frame, depth as nat);
        assert(whole.after(values_view(values@), written).output =~= whole.output);
        match whole.result {
            Ok(more) => {
                assert(values_view(values@) + more =~= more);
            },
            Err(_) => {},
        }
        assert(lines + written =~= lines);
    }
    while i < params.len()
        invariant
            i <= params.len(),
            env@.well_formed(),
            pv == exprs_view(params@),
            pv.len() == params.len(),
            forall|j: int| 0 <= j < params.len() ==> (#[trigger] pv[j]) == params@[j]@,
            frame == values_view(args@),
            lines == strings_view(old(out)@),
            strings_view(out@) == lines + written,
            eval_args_model(pv, 0, env@, frame, depth as nat) == eval_args_model(
                pv,
                i as int,
                env@,
                frame,
                depth as nat,
            ).after(values_view(values@), written),
        decreases params.len() - i,
    {
        let ghost first = eval_model(pv[i as int], env@, frame, depth as nat);
        let ghost rest = eval_args_model(pv, i as int + 1, env@, frame, depth as nat);
        match eval_(&params[i], env, args, depth, out) {
            Err(e) => {
                proof {
                    let here = eval_args_model(pv, i as int, env@, frame, depth as nat);
                    assert(here == ArgsOutcome {
                        result: Err::<Seq<ValueView>, ErrorView>(e@),
                        output: first.output,
                    });
                    assert(strings_view(out@) =~= lines + (written + first.output));
                }
                return Err(e);
            },
            Ok(value) => {
                proof {
                    lemma_values_view_push(values@, value);
                    lemma_args_after(rest, value@, first.output, values_view(values@), written);
                    assert(strings_view(out@) =~= lines + (written + first.output));
                    written = written + first.output;
                }
                values.push(value);
                i = i + 1;
            },
        }
    }
    proof {
        let last = eval_args_model(pv, i as int, env@, frame, depth as nat);
        assert(values_view(values@) + Seq::<ValueView>::empty() =~= values_view(values@));
        assert(written + last.output =~= written);
    }
    Ok(values)
}

/// Evaluates `expr` with `args` as the arguments of the call in scope,
/// allowing `depth` nested calls of declared functions.
///
/// Returns the value or the error that [`eval_model`] gives and appends to
/// `out` the lines that it says are written, also where an error ends the
/// evaluation.
pub fn eval_(
    expr: &Expression,
    env: &Environment,
    args: &Vec<Value>,
    depth: usize,
    out: &mut Vec<String>,
) -> (res: Result<Value, Error>)
    requires
        env@.well_formed(),
    ensures
        agrees(
            res,
            old(out)@,
            final(out)@,
            eval_model(expr@, env@, values_view(args@), depth as nat),
        ),
        consistent(env@) && well_formed_expr(expr@, env@, args.len() as nat) ==> !(res matches Err(
            e,
        ) && is_bug(e@)),
    decreases depth, expr,
{
    let ghost lines = strings_view(out@);
    proof {
        if consistent(env@) && well_formed_expr(expr@, env@, args.len() as nat) {
            lemma_values_view(args@);
            lemma_evaluation_is_sound(expr@, env@, values_view(args@), depth as nat);
        }
    }
    proof {
        assert(lines + Seq::<Seq<char>>::empty() =~= lines);
        lemma_values_view(args@);
    }
    match expr {
        Expression::Arg(index) => {
            if *index < args.len() {
                Ok(args[*index].clone())
            } else {
                Err(general("argument index out of range: this is a BUG"))
            }
        },
        Expression::Literal(value) => Ok(value.clone()),
        Expression::Temp => Err(general("attemped to evaluate temp expr: this is a BUG")),
        Expression::App(symbol, params) => {
            proof {
                lemma_exprs_view(params@);
            }
            let func = match env.get_function(*symbol) {
                Some(func) => func,
                None => {
                    return Err(general("call of an unknown function: this is a BUG"));
                },
            };
            match func.body() {
                FunctionBody::LazySystem(LazySystemFunction::If) => {
                    if params.len() < 3 {
                        return Err(
                            general("too few arguments for a built-in function: this is a BUG"),
                        );
                    }
                    let ghost cond = eval_model(
                        params@[0]@,
                        env@,
                        values_view(args@),
                        depth as nat,
                    );
                    let chosen = match eval_(&params[0], env, args, depth, out) {
                        Err(e) => {
                            return Err(e);
                        },
                        Ok(Value::Bool(true)) => &params[1],
                        Ok(Value::Bool(false)) => &params[2],
                        Ok(_) => {
                            return Err(wrong_type(1));
                        },
                    };
                    let ghost branch = eval_model(chosen@, env@, values_view(args@), depth as nat);
                    let res = eval_(chosen, env, args, depth, out);
                    proof {
                        assert(strings_view(out@) =~= lines + (cond.output + branch.output));
                    }
                    res
                },
                FunctionBody::System(f) => {
                    let ghost given = eval_args_model(
                        exprs_view(params@),
                        0,
                        env@,
                        values_view(args@),
                        depth as nat,
                    );
                    let values = match eager_eval(params, env, args, depth, out) {
                        Ok(values) => values,
                        Err(e) => {
                            return Err(e);
                        },
                    };
                    let res = apply(*f, &values, out);
                    proof {
                        assert(strings_view(out@) =~= lines + (given.output + printed(
                            *f,
                            values_view(values@),
                        )));
                    }
                    res
                },
                FunctionBody::Normal(body) => {
                    let ghost given = eval_args_model(
                        exprs_view(params@),
                        0,
                        env@,
                        values_view(args@),
                        depth as nat,
                    );
                    let values = match eager_eval(params, env, args, depth, out) {
                        Ok(values) => values,
                        Err(e) => {
                            return Err(e);
                        },
                    };
                    if depth == 0 {
                        return Err(general("maximum call depth exceeded"));
                    }
                    let ghost inner = eval_model(
                        body@,
                        env@,
                        values_view(values@),
                        (depth - 1) as nat,
                    );
                    let res = eval_(body, env, &values, depth - 1, out);
                    proof {
                        assert(strings_view(out@) =~= lines + (given.output + inner.output));
                    }
                    res
                },
            }
        },
    }
}

/// Evaluates `expr` outside any call: with no arguments in scope, and with
/// no bound on the depth of calls that a machine could reach.
pub fn eval(expr: &Expression, env: &Environment, out: &mut Vec<String>) -> (res: Result<
    Value,
    Error,
>)
    requires
        env@.well_formed(),
    ensures
        agrees(
            res,
            old(out)@,
            final(out)@,
            eval_model(expr@, env@, Seq::empty(), MAX_CALL_DEPTH as nat),
        ),
{
    let args: Vec<Value> = Vec::new();
    proof {
        assert(values_view(args@) =~= Seq::<ValueView>::empty());
    }
    eval_(expr, env, &args, MAX_CALL_DEPTH, out)
}

} // verus!
