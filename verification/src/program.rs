//! Whole programs and single lines: loading a source text, evaluating a
//! line, running `main`, and telling what a line typed at a prompt asks for.

use crate::builtins::general;
use crate::env::{BodyView, Environment, EnvironmentView, FunctionBody};
use crate::error::{Error, ErrorView};
use crate::interner::MAX_SYMBOLS;
use crate::interpreter::{agrees, eval, eval_model, Outcome, MAX_CALL_DEPTH};
use crate::parser::{parse_expr, parse_expr_model, parse_file, parse_file_model, ExprView, Loaded};
use crate::soundness::{
    consistent, declares_afresh, is_bug, lemma_run_is_sound, lemma_run_main_is_sound,
};
use crate::text::strings_view;
use crate::tokenizer::{
    characters, copy_range, is_whitespace, is_whitespace_char, lex, tokenize,
};
use crate::value::Value;
use vstd::prelude::*;

verus! {

/// The error of a source with more declarations than there are symbols.
pub open spec fn too_many_declarations() -> ErrorView {
    ErrorView::General("too many declarations"@)
}

/// The error of a program without an entry point.
pub open spec fn no_main() -> ErrorView {
    ErrorView::General("no main function found in file"@)
}

/// How loading the declarations of a source text into `env` ends.
pub open spec fn load_model(source: Seq<char>, env: EnvironmentView) -> Loaded {
    match lex(source) {
        Err(e) => Loaded { env, error: Some(e) },
        Ok(tokens) => if env.names.len() + tokens.len() > MAX_SYMBOLS {
            Loaded { env, error: Some(too_many_declarations()) }
        } else {
            parse_file_model(tokens, 0, env)
        },
    }
}

/// What evaluating the first expression of `line` in `env` gives. Tokens
/// after that expression are not looked at.
pub open spec fn run_model(line: Seq<char>, env: EnvironmentView) -> Outcome {
    match lex(line) {
        Err(e) => Outcome::silent(Err(e)),
        Ok(tokens) => match parse_expr_model(tokens, 0, Seq::empty(), env) {
            Err(e) => Outcome::silent(Err(e)),
            Ok((expr, _)) => eval_model(expr, env, Seq::empty(), MAX_CALL_DEPTH as nat),
        },
    }
}

/// The body of the entry point of a program: of the function `main`, where
/// it is declared in the language and takes no argument.
pub open spec fn main_body(env: EnvironmentView) -> Option<ExprView> {
    match env.entry("main"@) {
        Some((_, func)) => match func.body {
            BodyView::Normal(body) => if func.args == 0 {
                Some(body)
            } else {
                None
            },
            _ => None,
        },
        None => None,
    }
}

/// What running the program that `env` holds gives.
pub open spec fn run_main_model(env: EnvironmentView) -> Outcome {
    match main_body(env) {
        Some(body) => eval_model(body, env, Seq::empty(), MAX_CALL_DEPTH as nat),
        None => Outcome::silent(Err(no_main())),
    }
}

/// Loads the declarations of a source text into `env`, beside those it
/// holds. Ends as [`load_model`] says: a text that cannot be split into
/// tokens, or that could need more symbols than are left, changes nothing.
pub fn load_source(source: &str, env: &mut Environment) -> (res: Result<(), Error>)
    requires
        old(env)@.well_formed(),
    ensures
        final(env)@.well_formed(),
        final(env)@ == load_model(source@, old(env)@).env,
        match res {
            Ok(_) => load_model(source@, old(env)@).error is None,
            Err(e) => load_model(source@, old(env)@).error == Some(e@),
        },
        res is Ok && consistent(old(env)@) && (lex(source@) matches Ok(tokens) && declares_afresh(
            tokens,
            0,
            old(env)@,
        )) ==> consistent(final(env)@),
{
    let tokens = match tokenize(source) {
        Ok(tokens) => tokens,
        Err(e) => {
            return Err(e);
        },
    };
    if tokens.len() > MAX_SYMBOLS - env.size() {
        return Err(general("too many declarations"));
    }
    parse_file(&tokens, env)
}

/// Evaluates the expression that `line` starts with in `env`, as
/// [`run_model`] says, and appends what it prints to `out`.
pub fn run(line: &str, env: &Environment, out: &mut Vec<String>) -> (res: Result<Value, Error>)
    requires
        env@.well_formed(),
    ensures
        agrees(res, old(out)@, final(out)@, run_model(line@, env@)),
        consistent(env@) ==> !(res matches Err(e) && is_bug(e@)),
{
    proof {
        assert(strings_view(out@) + Seq::<Seq<char>>::empty() =~= strings_view(out@));
        if consistent(env@) {
            lemma_run_is_sound(line@, env@);
        }
    }
    let tokens = match tokenize(line) {
        Ok(tokens) => tokens,
        Err(e) => {
            return Err(e);
        },
    };
    let params: Vec<String> = Vec::new();
    proof {
        assert(strings_view(params@) =~= Seq::<Seq<char>>::empty());
    }
    let expr = match parse_expr(&tokens, 0, &params, env) {
        Ok((expr, _)) => expr,
        Err(e) => {
            return Err(e);
        },
    };
    eval(&expr, env, out)
}

/// Runs the program that `env` holds: evaluates the body of `main`, as
/// [`run_main_model`] says, and appends what it prints to `out`.
pub fn run_main(env: &Environment, out: &mut Vec<String>) -> (res: Result<Value, Error>)
    requires
        env@.well_formed(),
    ensures
        agrees(res, old(out)@, final(out)@, run_main_model(env@)),
        consistent(env@) ==> !(res matches Err(e) && is_bug(e@)),
{
    proof {
        assert(strings_view(out@) + Seq::<Seq<char>>::empty() =~= strings_view(out@));
        if consistent(env@) {
            lemma_run_main_is_sound(env@);
        }
    }
    match env.get_entry("main") {
        Some((_, func)) => match func.body() {
            FunctionBody::Normal(body) => {
                if func.args() == 0 {
                    eval(body, env, out)
                } else {
                    Err(general("no main function found in file"))
                }
            },
            _ => Err(general("no main function found in file")),
        },
        None => Err(general("no main function found in file")),
    }
}

/// What a [`Command`] stands for in contracts.
pub enum CommandView {
    Exit,
    Load(Seq<char>),
    Evaluate,
}

/// What a line typed at the prompt asks for.
#[derive(Debug)]
pub enum Command {
    /// To leave.
    Exit,
    /// To load the declarations of the source of that name.
    Load(String),
    /// To evaluate the line as an expression.
    Evaluate,
}

impl View for Command {
    type V = CommandView;

    open spec fn view(&self) -> CommandView {
        match self {
            Command::Exit => CommandView::Exit,
            Command::Load(name) => CommandView::Load(name@),
            Command::Evaluate => CommandView::Evaluate,
        }
    }
}

/// The index of the first character at or after `i` that is no
/// whitespace, or the length of `s`.
pub open spec fn text_start(s: Seq<char>, i: int) -> int
    decreases s.len() - i,
{
    if i < 0 || i >= s.len() || !is_whitespace(s[i]) {
        i
    } else {
        text_start(s, i + 1)
    }
}

/// The index after the last character before `j` that is no whitespace,
/// or 0.
pub open spec fn text_stop(s: Seq<char>, j: int) -> int
    decreases j,
{
    if j <= 0 || j > s.len() || !is_whitespace(s[j - 1]) {
        j
    } else {
        text_stop(s, j - 1)
    }
}

/// `s` without the whitespace at its start and at its end.
pub open spec fn trimmed(s: Seq<char>) -> Seq<char> {
    let start = text_start(s, 0);
    let stop = text_stop(s, s.len() as int);
    if start < stop {
        s.subrange(start, stop)
    } else {
        Seq::empty()
    }
}

/// What a line asks for: `:exit`, with any whitespace around it, to leave;
/// a line that starts with `:load` and a space, to load what the rest of
/// the line names; any other line, to be evaluated.
pub open spec fn command_model(line: Seq<char>) -> CommandView {
    if trimmed(line) == ":exit"@ {
        CommandView::Exit
    } else if ":load "@.is_prefix_of(line) {
        CommandView::Load(line.skip(":load "@.len() as int))
    } else {
        CommandView::Evaluate
    }
}

fn same_range(chars: &Vec<char>, from: usize, to: usize, word: &Vec<char>) -> (res: bool)
    requires
        from <= to <= chars.len(),
    ensures
        res == (chars@.subrange(from as int, to as int) == word@),
{
    if to - from != word.len() {
        return false;
    }
    let mut k: usize = 0;
    while k < word.len()
        invariant
            from <= to <= chars.len(),
            to - from == word.len(),
            k <= word.len(),
            forall|j: int| 0 <= j < k ==> chars@[from + j] == word@[j],
        decreases word.len() - k,
    {
        if chars[from + k] != word[k] {
            assert(chars@.subrange(from as int, to as int)[k as int] != word@[k as int]);
            return false;
        }
        k = k + 1;
    }
    assert(chars@.subrange(from as int, to as int) =~= word@);
    true
}

/// Tells what a line typed at the prompt asks for, as [`command_model`]
/// says.
pub fn command(line: &str) -> (res: Command)
    ensures
        res@ == command_model(line@),
{
    let chars = characters(line);
    let exit = characters(":exit");
    let load = characters(":load ");
    let mut start: usize = 0;
    while start < chars.len() && is_whitespace_char(chars[start])
        invariant
            start <= chars.len(),
            text_start(chars@, 0) == text_start(chars@, start as int),
        decreases chars.len() - start,
    {
        start = start + 1;
    }
    let mut stop: usize = chars.len();
    while stop > 0 && is_whitespace_char(chars[stop - 1])
        invariant
            stop <= chars.len(),
            text_stop(chars@, chars.len() as int) == text_stop(chars@, stop as int),
        decreases stop,
    {
        stop = stop - 1;
    }
    let is_exit = if start < stop {
        same_range(&chars, start, stop, &exit)
    } else {
        exit.len() == 0
    };
    proof {
        if start >= stop {
            if exit.len() == 0 {
                assert(exit@ =~= Seq::<char>::empty());
            }
        }
        assert(is_exit == (trimmed(line@) == ":exit"@));
        if load.len() <= chars.len() {
            assert(load@.is_prefix_of(chars@) == (chars@.subrange(0, load.len() as int) == load@));
        }
    }
    if is_exit {
        Command::Exit
    } else if load.len() <= chars.len() && same_range(&chars, 0, load.len(), &load) {
        let name = copy_range(&chars, load.len(), chars.len());
        assert(chars@.skip(load.len() as int) =~= chars@.subrange(
            load.len() as int,
            chars.len() as int,
        ));
        Command::Load(name)
    } else {
        Command::Evaluate
    }
}

} // verus!
