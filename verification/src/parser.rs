//! The parser: it reads from the environment how many argument expressions
//! each call takes, and registers each declaration before it parses its body.

use crate::env::{
    lemma_declare, BodyView, Environment, EnvironmentView, Function, FunctionView, Symbol,
};
use crate::error::{Error, ErrorView};
use crate::interner::MAX_SYMBOLS;
use crate::soundness::{consistent, declares_afresh, lemma_loading_keeps_consistency};
use crate::text::strings_view;
use crate::tokenizer::{tokens_view, Token, TokenView};
use crate::value::{Value, ValueView};
use vstd::prelude::*;
use vstd::string::*;

verus! {

/// What an [`Expression`] stands for in contracts.
pub enum ExprView {
    App(Symbol, Seq<ExprView>),
    Arg(usize),
    Literal(ValueView),
    Temp,
}

/// A node of the syntax tree.
#[derive(Debug)]
pub enum Expression {
    /// A call: the function, and one expression for each of its arguments.
    App(Symbol, Vec<Expression>),
    /// The parameter of that position in the declaration being defined.
    Arg(usize),
    /// A constant.
    Literal(Value),
    /// Stands for a body that is not known yet.
    Temp,
}

/// The views of a sequence of expressions, one by one.
pub open spec fn exprs_view(l: Seq<Expression>) -> Seq<ExprView>
    decreases l,
{
    if l.len() == 0 {
        Seq::empty()
    } else {
        exprs_view(l.drop_last()).push(l.last()@)
    }
}

impl View for Expression {
    type V = ExprView;

    open spec fn view(&self) -> ExprView
        decreases self,
    {
        match self {
            Expression::App(symbol, args) => ExprView::App(*symbol, exprs_view(args@)),
            Expression::Arg(index) => ExprView::Arg(*index),
            Expression::Literal(value) => ExprView::Literal(value@),
            Expression::Temp => ExprView::Temp,
        }
    }
}

/// `exprs_view` keeps the length and maps each element to its view.
pub proof fn lemma_exprs_view(l: Seq<Expression>)
    ensures
        exprs_view(l).len() == l.len(),
        forall|i: int| 0 <= i < l.len() ==> (#[trigger] exprs_view(l)[i]) == l[i]@,
    decreases l.len(),
{
    if l.len() > 0 {
        lemma_exprs_view(l.drop_last());
        assert(exprs_view(l) == exprs_view(l.drop_last()).push(l.last()@));
    } else {
        assert(exprs_view(l) == Seq::<ExprView>::empty());
    }
}

/// The view of a sequence with one more expression at its end.
pub proof fn lemma_exprs_view_push(l: Seq<Expression>, e: Expression)
    ensures
        exprs_view(l.push(e)) == exprs_view(l).push(e@),
{
    assert(l.push(e).drop_last() =~= l);
    assert(exprs_view(l.push(e)) == exprs_view(l.push(e).drop_last()).push(l.push(e).last()@));
}

/// The index of the first of `params` from `from` on that is `name`.
pub open spec fn position(params: Seq<Seq<char>>, name: Seq<char>, from: int) -> Option<usize>
    decreases params.len() - from,
{
    if from < 0 || from >= params.len() {
        None
    } else if params[from] == name {
        Some(from as usize)
    } else {
        position(params, name, from + 1)
    }
}

/// The error of an expression that is wanted where the tokens end.
pub open spec fn missing_expression() -> ErrorView {
    ErrorView::General("expected expression, found <eof>"@)
}

/// The error of a name that is neither a parameter nor a known function.
pub open spec fn unknown_name(name: Seq<char>, token: TokenView) -> ErrorView {
    ErrorView::Spanned("cannot find function or local "@ + name, token.span())
}

/// The error of a token that cannot start an expression.
pub open spec fn unexpected_token(token: TokenView) -> ErrorView {
    ErrorView::Spanned("unexpected token "@ + token.kind().name(), token.span())
}

/// The number of tokens from the one of index `pos` to the last.
pub open spec fn remaining(tokens: Seq<TokenView>, pos: int) -> nat {
    if pos < tokens.len() {
        (tokens.len() - pos) as nat
    } else {
        0
    }
}

/// The expression that starts at the token of index `pos`, and the number
/// of tokens that it takes; or the error that the tokens give.
///
/// A name that is one of `params` is that parameter, whatever `env` holds.
/// Any other name is a call of the function that `env` has for it, followed
/// by as many expressions as that function takes arguments.
pub open spec fn parse_expr_model(
    tokens: Seq<TokenView>,
    pos: int,
    params: Seq<Seq<char>>,
    env: EnvironmentView,
) -> Result<(ExprView, nat), ErrorView>
    decreases remaining(tokens, pos), 0nat, 0nat,
{
    if pos < 0 || pos >= tokens.len() {
        Err(missing_expression())
    } else {
        match tokens[pos] {
            TokenView::Name(name, _) => match position(params, name, 0) {
                Some(index) => Ok((ExprView::Arg(index), 1)),
                None => match env.entry(name) {
                    Some((symbol, func)) => match parse_args_model(
                        tokens,
                        pos + 1,
                        params,
                        env,
                        func.args as nat,
                    ) {
                        Ok((args, used)) => Ok((ExprView::App(symbol, args), 1 + used)),
                        Err(e) => Err(e),
                    },
                    None => Err(unknown_name(name, tokens[pos])),
                },
            },
            TokenView::Num(n, _) => Ok((ExprView::Literal(ValueView::Num(n)), 1)),
            TokenView::String(s, _) => Ok((ExprView::Literal(ValueView::String(s)), 1)),
            other => Err(unexpected_token(other)),
        }
    }
}

/// `count` expressions in a row from the token of index `pos` on, and the
/// number of tokens that they take together; or the first error.
pub open spec fn parse_args_model(
    tokens: Seq<TokenView>,
    pos: int,
    params: Seq<Seq<char>>,
    env: EnvironmentView,
    count: nat,
) -> Result<(Seq<ExprView>, nat), ErrorView>
    decreases remaining(tokens, pos), 1nat, count,
{
    if count == 0 {
        Ok((Seq::empty(), 0))
    } else {
        match parse_expr_model(tokens, pos, params, env) {
            Err(e) => Err(e),
            Ok((first, used)) => match parse_args_model(
                tokens,
                pos + used,
                params,
                env,
                (count - 1) as nat,
            ) {
                Ok((rest, more)) => Ok((seq![first] + rest, used + more)),
                Err(e) => Err(e),
            },
        }
    }
}

/// An expression takes at least one token and no token beyond the last.
pub proof fn lemma_parse_advances(
    tokens: Seq<TokenView>,
    pos: int,
    params: Seq<Seq<char>>,
    env: EnvironmentView,
)
    ensures
        parse_expr_model(tokens, pos, params, env) matches Ok((_, used)) ==> 0 <= pos && 1 <= used
            && pos + used <= tokens.len(),
    decreases remaining(tokens, pos), 0nat, 0nat,
{
    if 0 <= pos < tokens.len() {
        match tokens[pos] {
            TokenView::Name(name, _) => {
                if position(params, name, 0) is None {
                    match env.entry(name) {
                        Some((_, func)) => {
                            lemma_parse_args_advance(tokens, pos + 1, params, env, func.args as nat);
                        },
                        None => {},
                    }
                }
            },
            _ => {},
        }
    }
}

/// A row of expressions takes no token beyond the last, and holds as many
/// expressions as were asked for.
pub proof fn lemma_parse_args_advance(
    tokens: Seq<TokenView>,
    pos: int,
    params: Seq<Seq<char>>,
    env: EnvironmentView,
    count: nat,
)
    requires
        0 <= pos <= tokens.len(),
    ensures
        parse_args_model(tokens, pos, params, env, count) matches Ok((args, used)) ==> pos + used
            <= tokens.len() && args.len() == count,
    decreases remaining(tokens, pos), 1nat, count,
{
    if count > 0 {
        lemma_parse_advances(tokens, pos, params, env);
        match parse_expr_model(tokens, pos, params, env) {
            Ok((_, used)) => {
                lemma_parse_args_advance(tokens, pos + used, params, env, (count - 1) as nat);
            },
            Err(_) => {},
        }
    }
}

/// Whether `expr` can be the body of a declaration of `arity` parameters:
/// every parameter it refers to is one of them, and every call in it has a
/// function in `env` and carries exactly as many arguments as that function
/// takes. A body that is not known yet is not well-formed.
pub open spec fn well_formed_expr(expr: ExprView, env: EnvironmentView, arity: nat) -> bool
    decreases expr,
{
    match expr {
        ExprView::Arg(index) => index < arity,
        ExprView::Literal(_) => true,
        ExprView::Temp => false,
        ExprView::App(symbol, args) => {
            &&& env.function_of(symbol) matches Some(func) && func.args == args.len()
            &&& forall|i: int| 0 <= i < args.len() ==> well_formed_expr(#[trigger] args[i], env, arity)
        },
    }
}

/// A position that `position` finds lies within the parameters, holds the
/// name, and is the first that does.
pub proof fn lemma_position(params: Seq<Seq<char>>, name: Seq<char>, from: int)
    requires
        0 <= from,
        params.len() <= usize::MAX,
    ensures
        match position(params, name, from) {
            Some(index) => {
                &&& from <= index < params.len()
                &&& params[index as int] == name
                &&& forall|k: int| from <= k < index ==> params[k] != name
            },
            None => forall|k: int| from <= k < params.len() ==> params[k] != name,
        },
    decreases params.len() - from,
{
    if from < params.len() && params[from] != name {
        lemma_position(params, name, from + 1);
    }
}

/// Every expression that the parser gives is well-formed: each call site
/// got exactly as many argument expressions as the callee takes.
pub proof fn lemma_parsed_is_well_formed(
    tokens: Seq<TokenView>,
    pos: int,
    params: Seq<Seq<char>>,
    env: EnvironmentView,
)
    requires
        params.len() <= usize::MAX,
    ensures
        parse_expr_model(tokens, pos, params, env) matches Ok((expr, _)) ==> well_formed_expr(
            expr,
            env,
            params.len(),
        ),
    decreases remaining(tokens, pos), 0nat, 0nat,
{
    if 0 <= pos < tokens.len() {
        match tokens[pos] {
            TokenView::Name(name, _) => {
                lemma_position(params, name, 0);
                if position(params, name, 0) is None {
                    match env.entry(name) {
                        Some((_, func)) => {
                            lemma_parsed_args_are_well_formed(
                                tokens,
                                pos + 1,
                                params,
                                env,
                                func.args as nat,
                            );
                            lemma_parse_args_advance(tokens, pos + 1, params, env, func.args as nat);
                        },
                        None => {},
                    }
                }
            },
            _ => {},
        }
    }
}

/// Every expression of a parsed row of arguments is well-formed.
pub proof fn lemma_parsed_args_are_well_formed(
    tokens: Seq<TokenView>,
    pos: int,
    params: Seq<Seq<char>>,
    env: EnvironmentView,
    count: nat,
)
    requires
        0 <= pos <= tokens.len(),
        params.len() <= usize::MAX,
    ensures
        parse_args_model(tokens, pos, params, env, count) matches Ok((args, _)) ==> forall|
            i: int,
        |
            0 <= i < args.len() ==> well_formed_expr(#[trigger] args[i], env, params.len()),
    decreases remaining(tokens, pos), 1nat, count,
{
    if count > 0 {
        lemma_parsed_is_well_formed(tokens, pos, params, env);
        lemma_parse_advances(tokens, pos, params, env);
        match parse_expr_model(tokens, pos, params, env) {
            Ok((first, used)) => {
                let next = pos + used;
                lemma_parsed_args_are_well_formed(tokens, next, params, env, (count - 1) as nat);
                match parse_args_model(tokens, next, params, env, (count - 1) as nat) {
                    Ok((rest, _)) => {
                        let args = seq![first] + rest;
                        assert forall|i: int| 0 <= i < args.len() implies well_formed_expr(
                            #[trigger] args[i],
                            env,
                            params.len(),
                        ) by {
                            if i > 0 {
                                assert(args[i] == rest[i - 1]);
                            }
                        }
                    },
                    Err(_) => {},
                }
            },
            Err(_) => {},
        }
    }
}

/// The parser reads no token beyond the expression: with any tokens cut
/// off after it, the outcome is the same.
pub proof fn lemma_parse_reads_only_its_tokens(
    tokens: Seq<TokenView>,
    pos: int,
    params: Seq<Seq<char>>,
    env: EnvironmentView,
    cut: int,
)
    requires
        parse_expr_model(tokens, pos, params, env) matches Ok((_, used)) && pos + used <= cut
            <= tokens.len(),
    ensures
        parse_expr_model(tokens.take(cut), pos, params, env) == parse_expr_model(
            tokens,
            pos,
            params,
            env,
        ),
    decreases remaining(tokens, pos), 0nat, 0nat,
{
    lemma_parse_advances(tokens, pos, params, env);
    match tokens[pos] {
        TokenView::Name(name, _) => {
            if position(params, name, 0) is None {
                match env.entry(name) {
                    Some((_, func)) => {
                        lemma_parse_args_read_only_their_tokens(
                            tokens,
                            pos + 1,
                            params,
                            env,
                            func.args as nat,
                            cut,
                        );
                    },
                    None => {},
                }
            }
        },
        _ => {},
    }
}

/// The same for a row of arguments.
pub proof fn lemma_parse_args_read_only_their_tokens(
    tokens: Seq<TokenView>,
    pos: int,
    params: Seq<Seq<char>>,
    env: EnvironmentView,
    count: nat,
    cut: int,
)
    requires
        0 <= pos,
        parse_args_model(tokens, pos, params, env, count) matches Ok((_, used)) && pos + used
            <= cut <= tokens.len(),
    ensures
        parse_args_model(tokens.take(cut), pos, params, env, count) == parse_args_model(
            tokens,
            pos,
            params,
            env,
            count,
        ),
    decreases remaining(tokens, pos), 1nat, count,
{
    if count > 0 {
        lemma_parse_advances(tokens, pos, params, env);
        match parse_expr_model(tokens, pos, params, env) {
            Ok((_, used)) => {
                let next = pos + used;
                lemma_parse_args_advance(tokens, next, params, env, (count - 1) as nat);
                lemma_parse_reads_only_its_tokens(tokens, pos, params, env, cut);
                lemma_parse_args_read_only_their_tokens(
                    tokens,
                    next,
                    params,
                    env,
                    (count - 1) as nat,
                    cut,
                );
            },
            Err(_) => {},
        }
    }
}

/// A call that is fed too few tokens is never parsed as something else:
/// where the tokens end within an expression that would parse, the outcome
/// is the error of a missing expression.
pub proof fn lemma_truncated_expression_is_dangling(
    tokens: Seq<TokenView>,
    pos: int,
    params: Seq<Seq<char>>,
    env: EnvironmentView,
    cut: int,
)
    requires
        parse_expr_model(tokens, pos, params, env) matches Ok((_, used)) && pos <= cut < pos
            + used,
    ensures
        parse_expr_model(tokens.take(cut), pos, params, env) == Err::<(ExprView, nat), ErrorView>(
            missing_expression(),
        ),
    decreases remaining(tokens, pos), 0nat, 0nat,
{
    lemma_parse_advances(tokens, pos, params, env);
    if cut > pos {
        match tokens[pos] {
            TokenView::Name(name, _) => {
                if position(params, name, 0) is None {
                    match env.entry(name) {
                        Some((_, func)) => {
                            lemma_truncated_args_are_dangling(
                                tokens,
                                pos + 1,
                                params,
                                env,
                                func.args as nat,
                                cut,
                            );
                        },
                        None => {},
                    }
                }
            },
            _ => {},
        }
    }
}

/// The same for a row of arguments.
pub proof fn lemma_truncated_args_are_dangling(
    tokens: Seq<TokenView>,
    pos: int,
    params: Seq<Seq<char>>,
    env: EnvironmentView,
    count: nat,
    cut: int,
)
    requires
        0 <= pos,
        parse_args_model(tokens, pos, params, env, count) matches Ok((_, used)) && pos <= cut
            < pos + used,
    ensures
        parse_args_model(tokens.take(cut), pos, params, env, count) == Err::<
            (Seq<ExprView>, nat),
            ErrorView,
        >(missing_expression()),
    decreases remaining(tokens, pos), 1nat, count,
{
    if count > 0 {
        lemma_parse_advances(tokens, pos, params, env);
        match parse_expr_model(tokens, pos, params, env) {
            Ok((_, used)) => {
                let next = pos + used;
                lemma_parse_args_advance(tokens, next, params, env, (count - 1) as nat);
                if cut < next {
                    lemma_truncated_expression_is_dangling(tokens, pos, params, env, cut);
                } else {
                    lemma_parse_reads_only_its_tokens(tokens, pos, params, env, cut);
                    lemma_truncated_args_are_dangling(
                        tokens,
                        next,
                        params,
                        env,
                        (count - 1) as nat,
                        cut,
                    );
                }
            },
            Err(_) => {},
        }
    }
}

/// A name that is a parameter is that parameter, whatever functions the
/// environment holds: a parameter shadows a function of the same name.
pub proof fn lemma_parameter_shadows_function(
    tokens: Seq<TokenView>,
    pos: int,
    params: Seq<Seq<char>>,
    env: EnvironmentView,
)
    requires
        0 <= pos < tokens.len(),
        params.len() <= usize::MAX,
        tokens[pos] matches TokenView::Name(name, _) && params.contains(name),
    ensures
        parse_expr_model(tokens, pos, params, env) matches Ok((ExprView::Arg(index), used))
            && used == 1 && index < params.len() && params[index as int] == tokens[pos]->Name_0,
{
    let name = tokens[pos]->Name_0;
    lemma_position(params, name, 0);
    let k = choose|k: int| 0 <= k < params.len() && params[k] == name;
    assert(params[k] == name);
}

/// A name that is neither a parameter nor declared is an error: what is
/// declared later cannot be referred to.
pub proof fn lemma_unknown_name_is_rejected(
    tokens: Seq<TokenView>,
    pos: int,
    params: Seq<Seq<char>>,
    env: EnvironmentView,
)
    requires
        0 <= pos < tokens.len(),
        params.len() <= usize::MAX,
        tokens[pos] matches TokenView::Name(name, _) && !params.contains(name)
            && !env.names.contains(name),
    ensures
        parse_expr_model(tokens, pos, params, env) == Err::<(ExprView, nat), ErrorView>(
            unknown_name(tokens[pos]->Name_0, tokens[pos]),
        ),
{
    lemma_position(params, tokens[pos]->Name_0, 0);
}

/// The outcome `rest` of a row of expressions, with the expressions `done`
/// that took `used` tokens put before its own.
pub open spec fn after_args(
    done: Seq<ExprView>,
    used: nat,
    rest: Result<(Seq<ExprView>, nat), ErrorView>,
) -> Result<(Seq<ExprView>, nat), ErrorView> {
    match rest {
        Ok((more, further)) => Ok((done + more, used + further)),
        Err(e) => Err(e),
    }
}

fn find_param(params: &Vec<String>, name: &String) -> (res: Option<usize>)
    ensures
        res == position(strings_view(params@), name@, 0),
{
    let mut i: usize = 0;
    while i < params.len()
        invariant
            i <= params.len(),
            position(strings_view(params@), name@, 0) == position(
                strings_view(params@),
                name@,
                i as int,
            ),
        decreases params.len() - i,
    {
        if params[i] == *name {
            return Some(i);
        }
        i = i + 1;
    }
    None
}

/// Parses one expression from the token of index `start` on.
///
/// `params` are the parameters of the declaration whose body is parsed;
/// a name among them is that parameter, any other name is a call that takes
/// as many argument expressions as `env` says the function has. Gives the
/// expression and the index of the token after it: the outcome is exactly
/// that of [`parse_expr_model`], and an expression that is given is
/// well-formed.
pub fn parse_expr(
    tokens: &Vec<Token>,
    start: usize,
    params: &Vec<String>,
    env: &Environment,
) -> (res: Result<(Expression, usize), Error>)
    requires
        env@.well_formed(),
    ensures
        match res {
            Ok((expr, next)) => {
                &&& start < next <= tokens.len()
                &&& parse_expr_model(tokens_view(tokens@), start as int, strings_view(params@), env@)
                    == Ok::<(ExprView, nat), ErrorView>((expr@, (next - start) as nat))
                &&& well_formed_expr(expr@, env@, params.len() as nat)
            },
            Err(e) => parse_expr_model(
                tokens_view(tokens@),
                start as int,
                strings_view(params@),
                env@,
            ) == Err::<(ExprView, nat), ErrorView>(e@),
        },
    decreases tokens.len() - start,
{
    let ghost tv = tokens_view(tokens@);
    let ghost pv = strings_view(params@);
    proof {
        assert(pv.len() == params.len());
        lemma_parsed_is_well_formed(tv, start as int, pv, env@);
    }
    if start >= tokens.len() {
        return Err(Error::General("expected expression, found <eof>".to_string()));
    }
    match &tokens[start] {
        Token::Name(name, span) => {
            match find_param(params, name) {
                Some(index) => Ok((Expression::Arg(index), start + 1)),
                None => match env.get_entry(name.as_str()) {
                    Some((symbol, func)) => {
                        let count = func.args();
                        let mut args: Vec<Expression> = Vec::new();
                        let mut pos: usize = start + 1;
                        let mut k: usize = 0;
                        proof {
                            let whole = parse_args_model(tv, start as int + 1, pv, env@, count as nat);
                            match whole {
                                Ok((more, _)) => {
                                    assert(Seq::<ExprView>::empty() + more =~= more);
                                },
                                Err(_) => {},
                            }
                        }
                        while k < count
                            invariant
                                k <= count,
                                start < pos <= tokens.len(),
                                tv == tokens_view(tokens@),
                                pv == strings_view(params@),
                                env@.well_formed(),
                                parse_expr_model(tv, start as int, pv, env@) == match parse_args_model(
                                    tv,
                                    start as int + 1,
                                    pv,
                                    env@,
                                    count as nat,
                                ) {
                                    Ok((found, used)) => Ok::<(ExprView, nat), ErrorView>(
                                        (ExprView::App(symbol, found), 1 + used),
                                    ),
                                    Err(e) => Err::<(ExprView, nat), ErrorView>(e),
                                },
                                parse_args_model(tv, start as int + 1, pv, env@, count as nat)
                                    == after_args(
                                    exprs_view(args@),
                                    (pos - start - 1) as nat,
                                    parse_args_model(tv, pos as int, pv, env@, (count - k) as nat),
                                ),
                            decreases count - k,
                        {
                            match parse_expr(tokens, pos, params, env) {
                                Err(e) => {
                                    return Err(e);
                                },
                                Ok((arg, next)) => {
                                    proof {
                                        lemma_exprs_view_push(args@, arg);
                                        let rest = parse_args_model(
                                            tv,
                                            next as int,
                                            pv,
                                            env@,
                                            (count - k - 1) as nat,
                                        );
                                        match rest {
                                            Ok((more, _)) => {
                                                assert(exprs_view(args@) + (seq![arg@] + more)
                                                    =~= exprs_view(args@).push(arg@) + more);
                                            },
                                            Err(_) => {},
                                        }
                                    }
                                    args.push(arg);
                                    pos = next;
                                    k = k + 1;
                                },
                            }
                        }
                        proof {
                            assert(exprs_view(args@) + Seq::<ExprView>::empty() =~= exprs_view(
                                args@,
                            ));
                        }
                        Ok((Expression::App(symbol, args), pos))
                    },
                    None => {
                        let mut message = "cannot find function or local ".to_string();
                        message.append(name.as_str());
                        Err(Error::Spanned(message, *span))
                    },
                },
            }
        },
        Token::Num(n, _) => Ok((Expression::Literal(Value::Num(*n)), start + 1)),
        Token::String(s, _) => Ok((Expression::Literal(Value::String(s.clone())), start + 1)),
        token => {
            let mut message = "unexpected token ".to_string();
            message.append(token.kind().as_str());
            Err(Error::Spanned(message, token.span()))
        },
    }
}

/// The index of the first token at or after `i` that is not a name, or the
/// number of tokens where there is none.
pub open spec fn names_end(tokens: Seq<TokenView>, i: int) -> int
    decreases tokens.len() - i,
{
    if i < 0 || i >= tokens.len() || !(tokens[i] is Name) {
        i
    } else {
        names_end(tokens, i + 1)
    }
}

/// The names that the tokens from index `i` up to index `j` hold.
pub open spec fn names_between(tokens: Seq<TokenView>, i: int, j: int) -> Seq<Seq<char>> {
    Seq::new((j - i) as nat, |k: int| tokens[i + k]->Name_0)
}

/// The function that stands for a declaration of `arity` parameters while
/// its body is parsed.
pub open spec fn stub(arity: nat) -> FunctionView {
    FunctionView { args: arity as usize, body: BodyView::Normal(ExprView::Temp) }
}

/// The function of a declaration of `arity` parameters, with its body.
pub open spec fn defined(arity: nat, body: ExprView) -> FunctionView {
    FunctionView { args: arity as usize, body: BodyView::Normal(body) }
}

/// How loading declarations ends: the environment as it is left, and the
/// error that stopped the loading, if one did.
pub struct Loaded {
    pub env: EnvironmentView,
    pub error: Option<ErrorView>,
}

/// The error of a token that should start a declaration and does not.
pub open spec fn expected_declaration(token: TokenView) -> ErrorView {
    ErrorView::Spanned("expected declaration found "@ + token.kind().name(), token.span())
}

/// The error of a declaration whose parameters are not followed by an arrow.
pub open spec fn expected_arrow(tokens: Seq<TokenView>, at: int) -> ErrorView {
    if at >= tokens.len() {
        ErrorView::General("expected arrow, found <eof>"@)
    } else {
        ErrorView::Spanned(
            "expected arrow, found "@ + tokens[at].kind().name(),
            tokens[at].span(),
        )
    }
}

/// Loads the declarations that start at the token of index `pos` into `env`.
///
/// Each declaration is a name, its parameters, an arrow and one expression.
/// The name is declared with its arity and a body that is not known yet,
/// then the body is parsed, so that it can call the function it defines, and
/// then the name is declared again with that body. The first error stops
/// the loading and leaves the environment as it is at that point.
pub open spec fn parse_file_model(tokens: Seq<TokenView>, pos: int, env: EnvironmentView) -> Loaded
    decreases tokens.len() - pos,
    via parse_file_advances
{
    if pos < 0 || pos >= tokens.len() {
        Loaded { env, error: None }
    } else {
        match tokens[pos] {
            TokenView::Decl(name, _) => {
                let arrow = names_end(tokens, pos + 1);
                let params = names_between(tokens, pos + 1, arrow);
                if arrow < tokens.len() && tokens[arrow] is Arrow {
                    let early = env.declare(name, stub(params.len()));
                    match parse_expr_model(tokens, arrow + 1, params, early) {
                        Err(e) => Loaded { env: early, error: Some(e) },
                        Ok((body, used)) => parse_file_model(
                            tokens,
                            arrow + 1 + used,
                            early.declare(name, defined(params.len(), body)),
                        ),
                    }
                } else {
                    Loaded { env, error: Some(expected_arrow(tokens, arrow)) }
                }
            },
            other => Loaded { env, error: Some(expected_declaration(other)) },
        }
    }
}

#[via_fn]
proof fn parse_file_advances(tokens: Seq<TokenView>, pos: int, env: EnvironmentView) {
    if 0 <= pos < tokens.len() {
        match tokens[pos] {
            TokenView::Decl(name, _) => {
                let arrow = names_end(tokens, pos + 1);
                let params = names_between(tokens, pos + 1, arrow);
                lemma_names_end_bounds(tokens, pos + 1);
                let early = env.declare(name, stub(params.len()));
                lemma_parse_advances(tokens, arrow + 1, params, early);
            },
            _ => {},
        }
    }
}

/// A body that starts with a name that is neither the declared name, nor a
/// parameter, nor known to the environment stops the loading: a
/// declaration cannot refer to one that follows it.
pub proof fn lemma_forward_reference_is_rejected(
    tokens: Seq<TokenView>,
    pos: int,
    env: EnvironmentView,
)
    requires
        0 <= pos < tokens.len(),
        tokens.len() <= usize::MAX,
        tokens[pos] is Decl,
        names_end(tokens, pos + 1) + 1 < tokens.len(),
        tokens[names_end(tokens, pos + 1)] is Arrow,
        ({
            let arrow = names_end(tokens, pos + 1);
            let params = names_between(tokens, pos + 1, arrow);
            &&& tokens[arrow + 1] matches TokenView::Name(callee, _)
            &&& callee != tokens[pos]->Decl_0
            &&& !params.contains(callee)
            &&& !env.names.contains(callee)
        }),
    ensures
        parse_file_model(tokens, pos, env).error == Some(
            unknown_name(
                tokens[names_end(tokens, pos + 1) + 1]->Name_0,
                tokens[names_end(tokens, pos + 1) + 1],
            ),
        ),
{
    let arrow = names_end(tokens, pos + 1);
    let params = names_between(tokens, pos + 1, arrow);
    let name = tokens[pos]->Decl_0;
    let callee = tokens[arrow + 1]->Name_0;
    let early = env.declare(name, stub(params.len()));
    lemma_names_end_bounds(tokens, pos + 1);
    if env.names.contains(name) {
    } else {
        assert forall|k: int| 0 <= k < early.names.len() implies early.names[k] != callee by {
            if k < env.names.len() {
                assert(env.names[k] == early.names[k]);
            }
        }
    }
    lemma_unknown_name_is_rejected(tokens, arrow + 1, params, early);
}

/// `names_end` stays between its start and the end of the tokens.
pub proof fn lemma_names_end_bounds(tokens: Seq<TokenView>, i: int)
    requires
        0 <= i <= tokens.len(),
    ensures
        i <= names_end(tokens, i) <= tokens.len(),
        forall|k: int| i <= k < names_end(tokens, i) ==> (#[trigger] tokens[k]) is Name,
    decreases tokens.len() - i,
{
    if i < tokens.len() && tokens[i] is Name {
        lemma_names_end_bounds(tokens, i + 1);
    }
}

fn read_params(tokens: &Vec<Token>, from: usize) -> (res: (Vec<String>, usize))
    requires
        from <= tokens.len(),
    ensures
        res.1 == names_end(tokens_view(tokens@), from as int),
        from <= res.1 <= tokens.len(),
        strings_view(res.0@) == names_between(tokens_view(tokens@), from as int, res.1 as int),
{
    let ghost tv = tokens_view(tokens@);
    let mut params: Vec<String> = Vec::new();
    let mut at: usize = from;
    assert(strings_view(params@) =~= names_between(tv, from as int, at as int));
    while at < tokens.len()
        invariant
            from <= at <= tokens.len(),
            tv == tokens_view(tokens@),
            names_end(tv, from as int) == names_end(tv, at as int),
            strings_view(params@) == names_between(tv, from as int, at as int),
        decreases tokens.len() - at,
    {
        match &tokens[at] {
            Token::Name(name, _) => {
                let ghost before = strings_view(params@);
                assert(tv[at as int] == TokenView::Name(name@, tokens@[at as int]@.span()));
                params.push(name.clone());
                at = at + 1;
                assert(strings_view(params@) =~= before.push(name@));
                assert(before.push(name@) =~= names_between(tv, from as int, at as int));
            },
            _ => {
                return (params, at);
            },
        }
    }
    (params, at)
}

/// Loads a sequence of declarations into `env`.
///
/// Each declaration is registered under its name before its body is parsed,
/// so a body may call the function it defines and the functions declared
/// before it, and no others. Leaves `env` and gives the error exactly as
/// [`parse_file_model`] does; every declaration takes at most one new
/// symbol, for which `env` must have room.
pub fn parse_file(tokens: &Vec<Token>, env: &mut Environment) -> (res: Result<(), Error>)
    requires
        old(env)@.well_formed(),
        old(env)@.names.len() + tokens.len() <= MAX_SYMBOLS,
    ensures
        final(env)@.well_formed(),
        final(env)@ == parse_file_model(tokens_view(tokens@), 0, old(env)@).env,
        match res {
            Ok(_) => parse_file_model(tokens_view(tokens@), 0, old(env)@).error is None,
            Err(e) => parse_file_model(tokens_view(tokens@), 0, old(env)@).error == Some(e@),
        },
        res is Ok && consistent(old(env)@) && declares_afresh(tokens_view(tokens@), 0, old(env)@)
            ==> consistent(final(env)@),
{
    let ghost tv = tokens_view(tokens@);
    let mut pos: usize = 0;
    proof {
        if consistent(env@) && declares_afresh(tv, 0, env@) && parse_file_model(tv, 0, env@).error
            is None {
            lemma_loading_keeps_consistency(tv, 0, env@);
        }
    }
    while pos < tokens.len()
        invariant
            pos <= tokens.len(),
            tv == tokens_view(tokens@),
            env@.well_formed(),
            env@.names.len() + (tokens.len() - pos) <= MAX_SYMBOLS,
            parse_file_model(tv, 0, old(env)@) == parse_file_model(tv, pos as int, env@),
        decreases tokens.len() - pos,
    {
        let name = match &tokens[pos] {
            Token::Decl(name, _) => name,
            token => {
                let mut message = "expected declaration found ".to_string();
                message.append(token.kind().as_str());
                return Err(Error::Spanned(message, token.span()));
            },
        };
        let (params, arrow) = read_params(tokens, pos + 1);
        if arrow >= tokens.len() {
            return Err(Error::General("expected arrow, found <eof>".to_string()));
        }
        match &tokens[arrow] {
            Token::Arrow(_) => {},
            token => {
                let mut message = "expected arrow, found ".to_string();
                message.append(token.kind().as_str());
                return Err(Error::Spanned(message, token.span()));
            },
        }
        let ghost before = env@;
        let ghost pv = strings_view(params@);
        proof {
            lemma_declare(before, name@, stub(pv.len()));
        }
        env.insert_function(name.as_str(), Function::new(params.len(), Expression::Temp));
        let ghost early = env@;
        match parse_expr(tokens, arrow + 1, &params, env) {
            Err(e) => {
                return Err(e);
            },
            Ok((body, next)) => {
                proof {
                    lemma_declare(early, name@, defined(pv.len(), body@));
                }
                env.insert_function(name.as_str(), Function::new(params.len(), body));
                pos = next;
            },
        }
    }
    Ok(())
}

} // verus!
