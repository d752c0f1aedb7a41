//! The environment: the table that interns function names and maps each
//! symbol to its function, and the built-in functions it starts with.

use crate::interner::{interned, rodeo_get, rodeo_get_or_intern, rodeo_new, MAX_SYMBOLS};
use crate::parser::{ExprView, Expression};
use crate::soundness::{consistent, lemma_default_env_is_consistent};
use lasso::{Rodeo, Spur};
use std::collections::hash_map::RandomState;
use std::collections::HashMap;
use vstd::prelude::*;
use vstd::std_specs::convert::IntoSpec;

verus! {

/// The handle of an interned function name: its index among the names of
/// the environment that interned it.
#[derive(Debug, Clone, Copy, PartialEq, Eq, Structural, Hash)]
pub struct Symbol(pub usize);

/// A built-in function that receives its arguments evaluated.
#[derive(Debug, Clone, Copy, PartialEq, Eq, Structural)]
pub enum SystemFunction {
    Print,
    True,
    False,
    Add,
    Sub,
    Mul,
    Div,
    Rem,
    Less,
    Greater,
    Equal,
    Nothing,
    Pair,
    Head,
    Tail,
    Fuse,
}

/// A built-in function that receives its arguments unevaluated and
/// evaluates those it needs.
#[derive(Debug, Clone, Copy, PartialEq, Eq, Structural)]
pub enum LazySystemFunction {
    If,
}

/// What a [`FunctionBody`] stands for in contracts.
pub enum BodyView {
    Normal(ExprView),
    System(SystemFunction),
    LazySystem(LazySystemFunction),
}

/// What a function does when it is called.
#[derive(Debug)]
pub enum FunctionBody {
    /// Defined in the language: the expression to evaluate.
    Normal(Expression),
    /// Built in, strict.
    System(SystemFunction),
    /// Built in, non-strict.
    LazySystem(LazySystemFunction),
}

impl View for FunctionBody {
    type V = BodyView;

    open spec fn view(&self) -> BodyView {
        match self {
            FunctionBody::Normal(e) => BodyView::Normal(e@),
            FunctionBody::System(f) => BodyView::System(*f),
            FunctionBody::LazySystem(f) => BodyView::LazySystem(*f),
        }
    }
}

impl From<Expression> for FunctionBody {
    fn from(expr: Expression) -> (res: FunctionBody) {
        FunctionBody::Normal(expr)
    }
}

impl vstd::std_specs::convert::FromSpecImpl<Expression> for FunctionBody {
    open spec fn obeys_from_spec() -> bool {
        true
    }

    open spec fn from_spec(expr: Expression) -> FunctionBody {
        FunctionBody::Normal(expr)
    }
}

impl From<SystemFunction> for FunctionBody {
    fn from(func: SystemFunction) -> (res: FunctionBody) {
        FunctionBody::System(func)
    }
}

impl vstd::std_specs::convert::FromSpecImpl<SystemFunction> for FunctionBody {
    open spec fn obeys_from_spec() -> bool {
        true
    }

    open spec fn from_spec(func: SystemFunction) -> FunctionBody {
        FunctionBody::System(func)
    }
}

impl From<LazySystemFunction> for FunctionBody {
    fn from(func: LazySystemFunction) -> (res: FunctionBody) {
        FunctionBody::LazySystem(func)
    }
}

impl vstd::std_specs::convert::FromSpecImpl<LazySystemFunction> for FunctionBody {
    open spec fn obeys_from_spec() -> bool {
        true
    }

    open spec fn from_spec(func: LazySystemFunction) -> FunctionBody {
        FunctionBody::LazySystem(func)
    }
}

/// What a [`Function`] stands for in contracts.
pub struct FunctionView {
    pub args: usize,
    pub body: BodyView,
}

/// A function: how many arguments it takes, and what it does with them.
#[derive(Debug)]
pub struct Function {
    args: usize,
    body: FunctionBody,
}

impl View for Function {
    type V = FunctionView;

    closed spec fn view(&self) -> FunctionView {
        FunctionView { args: self.args, body: self.body@ }
    }
}

impl Function {
    /// A function of `args` arguments that does what `body` says.
    pub fn new<B: Into<FunctionBody>>(args: usize, body: B) -> (res: Self)
        ensures
            B::obeys_into_spec() ==> res@ == (FunctionView { args, body: body.into_spec()@ }),
    {
        Function { args, body: body.into() }
    }

    /// The number of arguments.
    pub fn args(&self) -> (res: usize)
        ensures
            res == self@.args,
    {
        self.args
    }

    /// What the function does when it is called.
    pub fn body(&self) -> (res: &FunctionBody)
        ensures
            res@ == self@.body,
    {
        &self.body
    }
}

/// What an [`Environment`] stands for in contracts: the names it has
/// interned, in the order in which they came, and the function of each
/// symbol.
pub struct EnvironmentView {
    pub names: Seq<Seq<char>>,
    pub funcs: Map<usize, FunctionView>,
}

impl EnvironmentView {
    /// No name occurs twice, there are no more names than symbols, and the
    /// symbols that have a function are those of the names.
    pub open spec fn well_formed(self) -> bool {
        &&& self.names.no_duplicates()
        &&& self.names.len() <= MAX_SYMBOLS
        &&& forall|k: usize| self.funcs.contains_key(k) <==> k < self.names.len()
    }

    /// The symbol of a name, where it has one.
    pub open spec fn symbol_of(self, name: Seq<char>) -> Option<Symbol> {
        if self.names.contains(name) {
            Some(Symbol(self.names.index_of(name) as usize))
        } else {
            None
        }
    }

    /// The function of a symbol, where it has one.
    pub open spec fn function_of(self, symbol: Symbol) -> Option<FunctionView> {
        if self.funcs.contains_key(symbol.0) {
            Some(self.funcs[symbol.0])
        } else {
            None
        }
    }

    /// The symbol and the function of a name, where it has them.
    pub open spec fn entry(self, name: Seq<char>) -> Option<(Symbol, FunctionView)> {
        match self.symbol_of(name) {
            Some(symbol) => match self.function_of(symbol) {
                Some(func) => Some((symbol, func)),
                None => None,
            },
            None => None,
        }
    }

    /// Whether `name` can be declared: it is known already, or there is a
    /// symbol left for it.
    pub open spec fn has_room_for(self, name: Seq<char>) -> bool {
        self.names.contains(name) || self.names.len() < MAX_SYMBOLS
    }

    /// The environment after `name` is declared as `func`: a known name
    /// keeps its symbol and gets the new function, a new name gets the next
    /// symbol.
    pub open spec fn declare(self, name: Seq<char>, func: FunctionView) -> EnvironmentView {
        if self.names.contains(name) {
            EnvironmentView {
                names: self.names,
                funcs: self.funcs.insert(self.names.index_of(name) as usize, func),
            }
        } else {
            EnvironmentView {
                names: self.names.push(name),
                funcs: self.funcs.insert(self.names.len() as usize, func),
            }
        }
    }
}

/// Declaring a name keeps an environment well-formed, adds at most one name
/// and makes the name known.
pub proof fn lemma_declare(env: EnvironmentView, name: Seq<char>, func: FunctionView)
    requires
        env.well_formed(),
        env.has_room_for(name),
    ensures
        env.declare(name, func).well_formed(),
        env.declare(name, func).names.len() <= env.names.len() + 1,
        env.declare(name, func).names.contains(name),
        env.declare(name, func).entry(name) matches Some((_, found)) && found == func,
{
    let after = env.declare(name, func);
    if env.names.contains(name) {
        let k = env.names.index_of(name);
        assert(after.names[k] == name);
        assert(after.names.index_of(name) == k);
    } else {
        let k = env.names.len() as int;
        assert(after.names[k] == name);
        assert(after.names.index_of(name) == k);
    }
}

/// Declaring a name changes nothing for the other names: each keeps its
/// symbol and its function. No function is ever removed.
pub proof fn lemma_declare_keeps_others(
    env: EnvironmentView,
    name: Seq<char>,
    func: FunctionView,
    other: Seq<char>,
)
    requires
        env.well_formed(),
        env.has_room_for(name),
        other != name,
    ensures
        env.declare(name, func).entry(other) == env.entry(other),
        env.declare(name, func).symbol_of(other) == env.symbol_of(other),
{
    let after = env.declare(name, func);
    lemma_declare(env, name, func);
    if env.names.contains(other) {
        let k = env.names.index_of(other);
        assert(after.names[k] == other);
        assert(after.names.index_of(other) == k);
        if env.names.contains(name) {
            assert(env.names[env.names.index_of(name)] == name);
        }
    } else {
        if after.names.contains(other) {
            let k = after.names.index_of(other);
            assert(after.names[k] == other);
            if k < env.names.len() {
                assert(env.names[k] == other);
            }
        }
    }
}

/// Interning is idempotent and the last declaration wins: declaring a name
/// again keeps its symbol and replaces its function.
pub proof fn lemma_last_declaration_wins(
    env: EnvironmentView,
    name: Seq<char>,
    first: FunctionView,
    second: FunctionView,
)
    requires
        env.well_formed(),
        env.has_room_for(name),
    ensures
        env.declare(name, first).symbol_of(name) == env.declare(name, second).symbol_of(name),
        env.declare(name, first).declare(name, second) == env.declare(name, second),
        env.names.contains(name) ==> env.declare(name, first).symbol_of(name) == env.symbol_of(
            name,
        ),
{
    lemma_declare(env, name, first);
    lemma_declare(env, name, second);
    let once = env.declare(name, first);
    let twice = once.declare(name, second);
    let direct = env.declare(name, second);
    assert(twice.names =~= direct.names);
    assert(twice.funcs =~= direct.funcs);
}

/// There are `n` machine integers below `n`.
pub proof fn lemma_count_below(n: nat)
    requires
        n <= usize::MAX + 1,
    ensures
        Set::new(|k: usize| k < n).finite(),
        Set::new(|k: usize| k < n).len() == n,
    decreases n,
{
    let s = Set::new(|k: usize| k < n);
    if n == 0 {
        assert(s =~= Set::<usize>::empty());
    } else {
        let m = (n - 1) as nat;
        lemma_count_below(m);
        let t = Set::new(|k: usize| k < m);
        assert(s =~= t.insert(m as usize));
    }
}

/// What can name a function in an [`Environment`]: the text of its name, or
/// its symbol.
pub trait IntoSymbol: Sized {
    /// The symbol that `self` names in `env`, where it names one.
    spec fn symbol_in(self, env: EnvironmentView) -> Option<Symbol>;

    fn into_symbol(self, env: &Environment) -> (res: Option<Symbol>)
        requires
            env@.well_formed(),
        ensures
            res == self.symbol_in(env@),
    ;
}

impl IntoSymbol for &str {
    open spec fn symbol_in(self, env: EnvironmentView) -> Option<Symbol> {
        env.symbol_of(self@)
    }

    fn into_symbol(self, env: &Environment) -> (res: Option<Symbol>) {
        env.get_symbol(self)
    }
}

impl IntoSymbol for Symbol {
    open spec fn symbol_in(self, env: EnvironmentView) -> Option<Symbol> {
        Some(self)
    }

    fn into_symbol(self, env: &Environment) -> (res: Option<Symbol>) {
        Some(self)
    }
}

/// The table of functions: it interns their names and maps each symbol to
/// its function.
pub struct Environment {
    symbol_store: Rodeo<Spur, RandomState>,
    funcs: HashMap<usize, Function>,
}

impl View for Environment {
    type V = EnvironmentView;

    closed spec fn view(&self) -> EnvironmentView {
        EnvironmentView {
            names: interned(self.symbol_store),
            funcs: Map::new(|k: usize| self.funcs@.contains_key(k), |k: usize| self.funcs@[k]@),
        }
    }
}

impl Environment {
    /// An environment without any function.
    pub fn new() -> (res: Self)
        ensures
            res@.well_formed(),
            res@.names == Seq::<Seq<char>>::empty(),
            res@.funcs == Map::<usize, FunctionView>::empty(),
    {
        let res = Environment { symbol_store: rodeo_new(), funcs: HashMap::new() };
        assert(res@.funcs =~= Map::<usize, FunctionView>::empty());
        res
    }

    /// The symbol of `name`, if the name was ever declared.
    pub fn get_symbol(&self, name: &str) -> (res: Option<Symbol>)
        requires
            self@.well_formed(),
        ensures
            res == self@.symbol_of(name@),
    {
        match rodeo_get(&self.symbol_store, name) {
            Some(k) => Some(Symbol(k)),
            None => None,
        }
    }

    /// The function that `name` names, if it names one.
    pub fn get_function<I: IntoSymbol>(&self, name: I) -> (res: Option<&Function>)
        requires
            self@.well_formed(),
        ensures
            match name.symbol_in(self@) {
                Some(symbol) => match res {
                    Some(func) => self@.function_of(symbol) == Some(func@),
                    None => self@.function_of(symbol) is None,
                },
                None => res is None,
            },
    {
        match name.into_symbol(self) {
            Some(symbol) => self.funcs.get(&symbol.0),
            None => None,
        }
    }

    /// The symbol and the function of `name`, if it was ever declared.
    pub fn get_entry(&self, name: &str) -> (res: Option<(Symbol, &Function)>)
        requires
            self@.well_formed(),
        ensures
            match res {
                Some((symbol, func)) => self@.entry(name@) == Some((symbol, func@)),
                None => self@.entry(name@) is None,
            },
    {
        match rodeo_get(&self.symbol_store, name) {
            Some(k) => match self.funcs.get(&k) {
                Some(func) => Some((Symbol(k), func)),
                None => None,
            },
            None => None,
        }
    }

    /// The number of functions.
    pub fn size(&self) -> (res: usize)
        requires
            self@.well_formed(),
        ensures
            res == self@.names.len(),
    {
        proof {
            lemma_count_below(self@.names.len());
            assert forall|k: usize| self.funcs@.dom().contains(k) <==> k < self@.names.len() by {
                assert(self@.funcs.contains_key(k) <==> self.funcs@.contains_key(k));
            }
            assert(self.funcs@.dom() =~= Set::new(|k: usize| k < self@.names.len()));
        }
        self.funcs.len()
    }

    /// Declares `name` as `func`, in place of what it was before.
    pub fn insert_function(&mut self, name: &str, func: Function)
        requires
            old(self)@.well_formed(),
            old(self)@.has_room_for(name@),
        ensures
            final(self)@.well_formed(),
            final(self)@ == old(self)@.declare(name@, func@),
    {
        let k = rodeo_get_or_intern(&mut self.symbol_store, name);
        self.funcs.insert(k, func);
        assert(self@.funcs =~= old(self)@.declare(name@, func@).funcs);
    }
}

/// The function view of a strict built-in that is declared with `args`
/// arguments.
pub open spec fn strict(args: usize, f: SystemFunction) -> FunctionView {
    FunctionView { args, body: BodyView::System(f) }
}

/// The function view of a non-strict built-in that is declared with `args`
/// arguments.
pub open spec fn lazy(args: usize, f: LazySystemFunction) -> FunctionView {
    FunctionView { args, body: BodyView::LazySystem(f) }
}

/// The names of the built-in functions, each at the index of its symbol.
pub open spec fn builtin_names() -> Seq<Seq<char>> {
    seq![
        "print"@,
        "true"@,
        "false"@,
        "+"@,
        "-"@,
        "*"@,
        "/"@,
        "%"@,
        "<"@,
        ">"@,
        "if"@,
        "="@,
        "none"@,
        "pair"@,
        "head"@,
        "tail"@,
        "fuse"@,
    ]
}

/// The built-in functions, each at the index of its symbol.
pub open spec fn builtin_functions() -> Seq<FunctionView> {
    seq![
        strict(1, SystemFunction::Print),
        strict(0, SystemFunction::True),
        strict(0, SystemFunction::False),
        strict(2, SystemFunction::Add),
        strict(2, SystemFunction::Sub),
        strict(2, SystemFunction::Mul),
        strict(2, SystemFunction::Div),
        strict(2, SystemFunction::Rem),
        strict(2, SystemFunction::Less),
        strict(2, SystemFunction::Greater),
        lazy(3, LazySystemFunction::If),
        strict(2, SystemFunction::Equal),
        strict(0, SystemFunction::Nothing),
        strict(2, SystemFunction::Pair),
        strict(1, SystemFunction::Head),
        strict(1, SystemFunction::Tail),
        strict(2, SystemFunction::Fuse),
    ]
}

/// The first `count` of the built-in functions under their names.
pub open spec fn builtins_up_to(count: nat) -> EnvironmentView {
    EnvironmentView {
        names: builtin_names().take(count as int),
        funcs: Map::new(|k: usize| k < count, |k: usize| builtin_functions()[k as int]),
    }
}

/// The environment of the built-in functions.
pub open spec fn default_env_model() -> EnvironmentView {
    builtins_up_to(builtin_names().len())
}

/// The names of the built-in functions differ from each other.
pub proof fn lemma_builtin_names_differ()
    ensures
        builtin_names().no_duplicates(),
{
    reveal_strlit("print");
    reveal_strlit("true");
    reveal_strlit("false");
    reveal_strlit("+");
    reveal_strlit("-");
    reveal_strlit("*");
    reveal_strlit("/");
    reveal_strlit("%");
    reveal_strlit("<");
    reveal_strlit(">");
    reveal_strlit("if");
    reveal_strlit("=");
    reveal_strlit("none");
    reveal_strlit("pair");
    reveal_strlit("head");
    reveal_strlit("tail");
    reveal_strlit("fuse");
    let n = builtin_names();
    assert forall|i: int, j: int| 0 <= i < n.len() && 0 <= j < n.len() && i != j implies n[i]
        != n[j] by {
        assert(n[i].len() != n[j].len() || n[i][0] != n[j][0] || n[i][1] != n[j][1]);
    }
}

/// Declaring the next built-in function gives the next environment of
/// built-in functions.
proof fn lemma_next_builtin(count: nat)
    requires
        count < builtin_names().len(),
    ensures
        builtins_up_to(count).well_formed(),
        builtins_up_to(count).declare(
            builtin_names()[count as int],
            builtin_functions()[count as int],
        ) == builtins_up_to(count + 1),
{
    lemma_builtin_names_differ();
    let names = builtin_names();
    let before = builtins_up_to(count);
    let after = before.declare(names[count as int], builtin_functions()[count as int]);
    assert(!before.names.contains(names[count as int]));
    assert(after.names =~= builtins_up_to(count + 1).names);
    assert(after.funcs =~= builtins_up_to(count + 1).funcs);
}

fn declare_builtin<B: Into<FunctionBody>>(
    env: &mut Environment,
    name: &str,
    args: usize,
    body: B,
    Ghost(count): Ghost<nat>,
)
    requires
        count < builtin_names().len(),
        old(env)@ == builtins_up_to(count),
        name@ == builtin_names()[count as int],
        B::obeys_into_spec(),
        (FunctionView { args, body: body.into_spec()@ }) == builtin_functions()[count as int],
    ensures
        final(env)@ == builtins_up_to(count + 1),
{
    proof {
        lemma_next_builtin(count);
    }
    env.insert_function(name, Function::new(args, body));
}

/// The environment that a program starts with: the built-in functions.
pub fn default_env() -> (res: Environment)
    ensures
        res@.well_formed(),
        res@ == default_env_model(),
        consistent(res@),
{
    let mut env = Environment::new();
    proof {
        assert(env@.names =~= builtins_up_to(0).names);
        assert(env@.funcs =~= builtins_up_to(0).funcs);
    }
    declare_builtin(&mut env, "print", 1, SystemFunction::Print, Ghost(0));
    declare_builtin(&mut env, "true", 0, SystemFunction::True, Ghost(1));
    declare_builtin(&mut env, "false", 0, SystemFunction::False, Ghost(2));
    declare_builtin(&mut env, "+", 2, SystemFunction::Add, Ghost(3));
    declare_builtin(&mut env, "-", 2, SystemFunction::Sub, Ghost(4));
    declare_builtin(&mut env, "*", 2, SystemFunction::Mul, Ghost(5));
    declare_builtin(&mut env, "/", 2, SystemFunction::Div, Ghost(6));
    declare_builtin(&mut env, "%", 2, SystemFunction::Rem, Ghost(7));
    declare_builtin(&mut env, "<", 2, SystemFunction::Less, Ghost(8));
    declare_builtin(&mut env, ">", 2, SystemFunction::Greater, Ghost(9));
    declare_builtin(&mut env, "if", 3, LazySystemFunction::If, Ghost(10));
    declare_builtin(&mut env, "=", 2, SystemFunction::Equal, Ghost(11));
    declare_builtin(&mut env, "none", 0, SystemFunction::Nothing, Ghost(12));
    declare_builtin(&mut env, "pair", 2, SystemFunction::Pair, Ghost(13));
    declare_builtin(&mut env, "head", 1, SystemFunction::Head, Ghost(14));
    declare_builtin(&mut env, "tail", 1, SystemFunction::Tail, Ghost(15));
    declare_builtin(&mut env, "fuse", 2, SystemFunction::Fuse, Ghost(16));
    proof {
        lemma_default_env_is_consistent();
    }
    env
}

} // verus!
