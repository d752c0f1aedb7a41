//! The built-in functions that receive their arguments evaluated: what each
//! returns and writes, and the errors of arguments it cannot take.

use crate::env::SystemFunction;
use crate::error::{Error, ErrorView};
use crate::text::{decimal, push_decimal, strings_view};
use crate::value::{lemma_values_view, lemma_values_view_is, values_view, Value, ValueKind, ValueView};
use vstd::prelude::*;
use vstd::string::*;

verus! {

/// The error of an argument of the wrong kind; `index` counts from 1.
pub open spec fn wrong_argument_type(index: nat) -> ErrorView {
    ErrorView::General("wrong argument type for index "@ + decimal(index))
}

/// The error of two values that `+` cannot add.
pub open spec fn cannot_add(left: ValueKind, right: ValueKind) -> ErrorView {
    ErrorView::General(
        "types "@ + left.name() + " and "@ + right.name() + " cannot be added together"@,
    )
}

/// The error of a built-in function that is handed fewer values than it
/// uses. A tree from the parser never gives it.
pub open spec fn missing_argument() -> ErrorView {
    ErrorView::General("too few arguments for a built-in function: this is a BUG"@)
}

/// The error of a sum that does not fit 64 bits.
pub open spec fn add_overflow() -> ErrorView {
    ErrorView::General("attempt to add with overflow"@)
}

/// The error of a difference below zero.
pub open spec fn subtract_overflow() -> ErrorView {
    ErrorView::General("attempt to subtract with overflow"@)
}

/// The error of a product that does not fit 64 bits.
pub open spec fn multiply_overflow() -> ErrorView {
    ErrorView::General("attempt to multiply with overflow"@)
}

/// The error of a division by zero.
pub open spec fn divide_by_zero() -> ErrorView {
    ErrorView::General("attempt to divide by zero"@)
}

/// The error of the remainder of a division by zero.
pub open spec fn remainder_by_zero() -> ErrorView {
    ErrorView::General("attempt to calculate the remainder with a divisor of zero"@)
}

/// The error of the first element of a list that has none.
pub open spec fn head_of_empty() -> ErrorView {
    ErrorView::General("head of an empty list"@)
}

/// The error of the rest of a list that has no first element.
pub open spec fn tail_of_empty() -> ErrorView {
    ErrorView::General("tail of an empty list"@)
}

/// The number of values that a built-in function uses.
pub open spec fn uses(f: SystemFunction) -> nat {
    match f {
        SystemFunction::True | SystemFunction::False | SystemFunction::Nothing => 0,
        SystemFunction::Print | SystemFunction::Head | SystemFunction::Tail => 1,
        _ => 2,
    }
}

/// The first two values as numbers, or the error of the first that is none.
pub open spec fn two_numbers(args: Seq<ValueView>) -> Result<(u64, u64), ErrorView> {
    match args[0] {
        ValueView::Num(a) => match args[1] {
            ValueView::Num(b) => Ok((a, b)),
            _ => Err(wrong_argument_type(2)),
        },
        _ => Err(wrong_argument_type(1)),
    }
}

/// What an operator on two numbers gives.
pub open spec fn arithmetic(f: SystemFunction, a: u64, b: u64) -> Result<ValueView, ErrorView> {
    match f {
        SystemFunction::Add => if a + b <= u64::MAX {
            Ok(ValueView::Num((a + b) as u64))
        } else {
            Err(add_overflow())
        },
        SystemFunction::Sub => if a >= b {
            Ok(ValueView::Num((a - b) as u64))
        } else {
            Err(subtract_overflow())
        },
        SystemFunction::Mul => if a * b <= u64::MAX {
            Ok(ValueView::Num((a * b) as u64))
        } else {
            Err(multiply_overflow())
        },
        SystemFunction::Div => if b != 0 {
            Ok(ValueView::Num(a / b))
        } else {
            Err(divide_by_zero())
        },
        SystemFunction::Rem => if b != 0 {
            Ok(ValueView::Num(a % b))
        } else {
            Err(remainder_by_zero())
        },
        SystemFunction::Less => Ok(ValueView::Bool(a < b)),
        SystemFunction::Greater => Ok(ValueView::Bool(a > b)),
        _ => Ok(ValueView::Bool(a == b)),
    }
}

/// What `fuse` makes of two values: lists are joined, and a value that is
/// no list counts as the list of itself.
pub open spec fn fuse(left: ValueView, right: ValueView) -> ValueView {
    match left {
        ValueView::List(x) => match right {
            ValueView::List(y) => ValueView::List(x + y),
            y => ValueView::List(x.push(y)),
        },
        x => match right {
            ValueView::List(y) => ValueView::List(seq![x] + y),
            y => ValueView::List(seq![x, y]),
        },
    }
}

/// What a built-in function returns for the values `args`.
pub open spec fn apply_model(f: SystemFunction, args: Seq<ValueView>) -> Result<
    ValueView,
    ErrorView,
> {
    if args.len() < uses(f) {
        Err(missing_argument())
    } else {
        match f {
            SystemFunction::Print => Ok(ValueView::Nothing),
            SystemFunction::True => Ok(ValueView::Bool(true)),
            SystemFunction::False => Ok(ValueView::Bool(false)),
            SystemFunction::Nothing => Ok(ValueView::Nothing),
            SystemFunction::Add => match (args[0], args[1]) {
                (ValueView::Num(a), ValueView::Num(b)) => arithmetic(f, a, b),
                (ValueView::String(a), ValueView::String(b)) => Ok(ValueView::String(a + b)),
                (a, b) => Err(cannot_add(a.kind(), b.kind())),
            },
            SystemFunction::Pair => Ok(ValueView::List(seq![args[0], args[1]])),
            SystemFunction::Head => match args[0] {
                ValueView::List(l) => if l.len() > 0 {
                    Ok(l[0])
                } else {
                    Err(head_of_empty())
                },
                _ => Err(wrong_argument_type(1)),
            },
            SystemFunction::Tail => match args[0] {
                ValueView::List(l) => if l.len() > 0 {
                    Ok(ValueView::List(l.drop_first()))
                } else {
                    Err(tail_of_empty())
                },
                _ => Err(wrong_argument_type(1)),
            },
            SystemFunction::Fuse => Ok(fuse(args[0], args[1])),
            _ => match two_numbers(args) {
                Ok((a, b)) => arithmetic(f, a, b),
                Err(e) => Err(e),
            },
        }
    }
}

/// Dividing by zero, or taking the remainder of a division by zero, is an
/// error for every dividend.
pub proof fn lemma_division_by_zero_fails(dividend: u64)
    ensures
        apply_model(SystemFunction::Div, seq![ValueView::Num(dividend), ValueView::Num(0)]) == Err::<
            ValueView,
            ErrorView,
        >(divide_by_zero()),
        apply_model(SystemFunction::Rem, seq![ValueView::Num(dividend), ValueView::Num(0)]) == Err::<
            ValueView,
            ErrorView,
        >(remainder_by_zero()),
{
}

/// A sum or a product that does not fit 64 bits, and a difference below
/// zero, are errors.
pub proof fn lemma_overflow_fails(a: u64, b: u64)
    ensures
        a + b > u64::MAX ==> arithmetic(SystemFunction::Add, a, b) == Err::<ValueView, ErrorView>(
            add_overflow(),
        ),
        a * b > u64::MAX ==> arithmetic(SystemFunction::Mul, a, b) == Err::<ValueView, ErrorView>(
            multiply_overflow(),
        ),
        a < b ==> arithmetic(SystemFunction::Sub, a, b) == Err::<ValueView, ErrorView>(
            subtract_overflow(),
        ),
{
}

/// `+` adds two numbers or joins two texts; any other pair of values is
/// an error that names the kinds of both.
pub proof fn lemma_add_rejects_mixed_kinds(left: ValueView, right: ValueView)
    requires
        !(left is Num && right is Num),
        !(left is String && right is String),
    ensures
        apply_model(SystemFunction::Add, seq![left, right]) == Err::<ValueView, ErrorView>(
            cannot_add(left.kind(), right.kind()),
        ),
{
}

/// `head` and `tail` of a value that is no list are the error of a first
/// argument of the wrong kind.
pub proof fn lemma_head_rejects_non_list(value: ValueView)
    requires
        !(value is List),
    ensures
        apply_model(SystemFunction::Head, seq![value]) == Err::<ValueView, ErrorView>(
            wrong_argument_type(1),
        ),
        apply_model(SystemFunction::Tail, seq![value]) == Err::<ValueView, ErrorView>(
            wrong_argument_type(1),
        ),
{
}

/// The lines that a built-in function writes for the values `args`.
pub open spec fn printed(f: SystemFunction, args: Seq<ValueView>) -> Seq<Seq<char>> {
    if f == SystemFunction::Print && args.len() >= 1 {
        seq![args[0].render()]
    } else {
        Seq::empty()
    }
}

pub(crate) fn general(message: &str) -> (res: Error)
    ensures
        res@ == ErrorView::General(message@),
{
    Error::General(message.to_string())
}

pub(crate) fn wrong_type(index: u64) -> (res: Error)
    ensures
        res@ == wrong_argument_type(index as nat),
{
    let mut message = "wrong argument type for index ".to_string();
    push_decimal(&mut message, index);
    Error::General(message)
}

fn not_addable(left: ValueKind, right: ValueKind) -> (res: Error)
    ensures
        res@ == cannot_add(left, right),
{
    let mut message = "types ".to_string();
    message.append(left.as_str());
    message.append(" and ");
    message.append(right.as_str());
    message.append(" cannot be added together");
    Error::General(message)
}

fn numbers(args: &Vec<Value>) -> (res: Result<(u64, u64), Error>)
    requires
        args.len() >= 2,
    ensures
        match res {
            Ok(pair) => two_numbers(values_view(args@)) == Ok::<(u64, u64), ErrorView>(pair),
            Err(e) => two_numbers(values_view(args@)) == Err::<(u64, u64), ErrorView>(e@),
        },
{
    proof {
        lemma_values_view(args@);
    }
    match &args[0] {
        Value::Num(a) => match &args[1] {
            Value::Num(b) => Ok((*a, *b)),
            _ => Err(wrong_type(2)),
        },
        _ => Err(wrong_type(1)),
    }
}

fn compute(f: SystemFunction, a: u64, b: u64) -> (res: Result<Value, Error>)
    ensures
        match res {
            Ok(v) => arithmetic(f, a, b) == Ok::<ValueView, ErrorView>(v@),
            Err(e) => arithmetic(f, a, b) == Err::<ValueView, ErrorView>(e@),
        },
{
    match f {
        SystemFunction::Add => match a.checked_add(b) {
            Some(n) => Ok(Value::Num(n)),
            None => Err(general("attempt to add with overflow")),
        },
        SystemFunction::Sub => match a.checked_sub(b) {
            Some(n) => Ok(Value::Num(n)),
            None => Err(general("attempt to subtract with overflow")),
        },
        SystemFunction::Mul => match a.checked_mul(b) {
            Some(n) => Ok(Value::Num(n)),
            None => Err(general("attempt to multiply with overflow")),
        },
        SystemFunction::Div => if b != 0 {
            Ok(Value::Num(a / b))
        } else {
            Err(general("attempt to divide by zero"))
        },
        SystemFunction::Rem => if b != 0 {
            Ok(Value::Num(a % b))
        } else {
            Err(general("attempt to calculate the remainder with a divisor of zero"))
        },
        SystemFunction::Less => Ok(Value::Bool(a < b)),
        SystemFunction::Greater => Ok(Value::Bool(a > b)),
        _ => Ok(Value::Bool(a == b)),
    }
}

/// Copies of the values of `list` from index `from` on, after those of `out`.
fn extend_with(out: &mut Vec<Value>, list: &Vec<Value>, from: usize)
    requires
        from <= list.len(),
    ensures
        values_view(final(out)@) == values_view(old(out)@) + values_view(list@).subrange(
            from as int,
            list.len() as int,
        ),
{
    let ghost start = values_view(out@);
    let ghost items = values_view(list@);
    let mut i: usize = from;
    proof {
        lemma_values_view(list@);
        assert(start + items.subrange(from as int, from as int) =~= start);
    }
    while i < list.len()
        invariant
            from <= i <= list.len(),
            items == values_view(list@),
            items.len() == list.len(),
            forall|j: int| 0 <= j < list.len() ==> (#[trigger] items[j]) == list@[j]@,
            values_view(out@) == start + items.subrange(from as int, i as int),
        decreases list.len() - i,
    {
        let ghost before = out@;
        let copy = list[i].clone();
        out.push(copy);
        proof {
            crate::value::lemma_values_view_push(before, copy);
            assert(values_view(out@) =~= start + items.subrange(from as int, i as int + 1));
        }
        i = i + 1;
    }
}

fn fuse_values(left: &Value, right: &Value) -> (res: Value)
    ensures
        res@ == fuse(left@, right@),
{
    let mut out: Vec<Value> = Vec::new();
    proof {
        assert(values_view(out@) =~= Seq::<ValueView>::empty());
    }
    match left {
        Value::List(x) => {
            extend_with(&mut out, x, 0);
            proof {
                lemma_values_view(x@);
                assert(values_view(out@) =~= values_view(x@));
            }
        },
        x => {
            let ghost before = out@;
            let copy = x.clone();
            out.push(copy);
            proof {
                crate::value::lemma_values_view_push(before, copy);
                assert(values_view(out@) =~= seq![left@]);
            }
        },
    }
    match right {
        Value::List(y) => {
            let ghost before = values_view(out@);
            extend_with(&mut out, y, 0);
            proof {
                lemma_values_view(y@);
                assert(values_view(out@) =~= before + values_view(y@));
            }
        },
        y => {
            let ghost before = out@;
            let copy = y.clone();
            out.push(copy);
            proof {
                crate::value::lemma_values_view_push(before, copy);
                assert(seq![left@].push(right@) =~= seq![left@, right@]);
            }
        },
    }
    Value::List(out)
}

/// Calls a built-in function on values: returns what [`apply_model`] gives
/// and appends to `out` the lines that [`printed`] gives.
pub fn apply(f: SystemFunction, args: &Vec<Value>, out: &mut Vec<String>) -> (res: Result<
    Value,
    Error,
>)
    ensures
        match res {
            Ok(v) => apply_model(f, values_view(args@)) == Ok::<ValueView, ErrorView>(v@),
            Err(e) => apply_model(f, values_view(args@)) == Err::<ValueView, ErrorView>(e@),
        },
        strings_view(final(out)@) == strings_view(old(out)@) + printed(f, values_view(args@)),
{
    let ghost views = values_view(args@);
    let ghost lines = strings_view(out@);
    proof {
        lemma_values_view(args@);
        assert(lines + Seq::<Seq<char>>::empty() =~= lines);
    }
    let needed: usize = match f {
        SystemFunction::True | SystemFunction::False | SystemFunction::Nothing => 0,
        SystemFunction::Print | SystemFunction::Head | SystemFunction::Tail => 1,
        _ => 2,
    };
    if args.len() < needed {
        return Err(general("too few arguments for a built-in function: this is a BUG"));
    }
    match f {
        SystemFunction::Print => {
            let line = args[0].to_string();
            out.push(line);
            proof {
                assert(strings_view(out@) =~= lines + seq![views[0].render()]);
            }
            Ok(Value::Nothing)
        },
        SystemFunction::True => Ok(Value::Bool(true)),
        SystemFunction::False => Ok(Value::Bool(false)),
        SystemFunction::Nothing => Ok(Value::Nothing),
        SystemFunction::Add => match &args[0] {
            Value::Num(a) => match &args[1] {
                Value::Num(b) => compute(f, *a, *b),
                other => Err(not_addable(ValueKind::Num, other.kind())),
            },
            Value::String(a) => match &args[1] {
                Value::String(b) => {
                    let mut joined = a.clone();
                    joined.append(b.as_str());
                    Ok(Value::String(joined))
                },
                other => Err(not_addable(ValueKind::String, other.kind())),
            },
            first => Err(not_addable(first.kind(), args[1].kind())),
        },
        SystemFunction::Pair => {
            let first = args[0].clone();
            let second = args[1].clone();
            let pair = vec![first, second];
            proof {
                lemma_values_view_is(pair@, seq![views[0], views[1]]);
            }
            Ok(Value::List(pair))
        },
        SystemFunction::Head => match &args[0] {
            Value::List(l) => {
                proof {
                    lemma_values_view(l@);
                }
                if l.len() > 0 {
                    Ok(l[0].clone())
                } else {
                    Err(general("head of an empty list"))
                }
            },
            _ => Err(wrong_type(1)),
        },
        SystemFunction::Tail => match &args[0] {
            Value::List(l) => {
                proof {
                    lemma_values_view(l@);
                }
                if l.len() > 0 {
                    let mut rest: Vec<Value> = Vec::new();
                    proof {
                        assert(values_view(rest@) =~= Seq::<ValueView>::empty());
                    }
                    extend_with(&mut rest, l, 1);
                    proof {
                        assert(values_view(rest@) =~= values_view(l@).drop_first());
                    }
                    Ok(Value::List(rest))
                } else {
                    Err(general("tail of an empty list"))
                }
            },
            _ => Err(wrong_type(1)),
        },
        SystemFunction::Fuse => Ok(fuse_values(&args[0], &args[1])),
        _ => match numbers(args) {
            Ok((a, b)) => compute(f, a, b),
            Err(e) => Err(e),
        },
    }
}

} // verus!
