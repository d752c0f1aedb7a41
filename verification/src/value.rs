//! Runtime values, their kinds and the text by which they are shown.

use crate::text::{decimal, push_decimal};
use vstd::prelude::*;
use vstd::string::*;

verus! {

/// What a [`Value`] stands for in contracts.
pub enum ValueView {
    Num(u64),
    String(Seq<char>),
    Bool(bool),
    List(Seq<ValueView>),
    Nothing,
}

/// A runtime value. Values are copied, never shared.
#[derive(Debug)]
pub enum Value {
    Num(u64),
    String(String),
    Bool(bool),
    List(Vec<Value>),
    Nothing,
}

/// The kind of a [`Value`], without what it holds.
#[derive(Debug, Clone, Copy, PartialEq, Eq, Structural)]
pub enum ValueKind {
    Num,
    String,
    Bool,
    Nothing,
    List,
}

/// The views of a sequence of values, one by one.
pub open spec fn values_view(l: Seq<Value>) -> Seq<ValueView>
    decreases l,
{
    if l.len() == 0 {
        Seq::empty()
    } else {
        values_view(l.drop_last()).push(l.last()@)
    }
}

impl View for Value {
    type V = ValueView;

    open spec fn view(&self) -> ValueView
        decreases self,
    {
        match self {
            Value::Num(n) => ValueView::Num(*n),
            Value::String(s) => ValueView::String(s@),
            Value::Bool(b) => ValueView::Bool(*b),
            Value::List(l) => ValueView::List(values_view(l@)),
            Value::Nothing => ValueView::Nothing,
        }
    }
}

/// `values_view` keeps the length and maps each element to its view.
pub proof fn lemma_values_view(l: Seq<Value>)
    ensures
        values_view(l).len() == l.len(),
        forall|i: int| 0 <= i < l.len() ==> (#[trigger] values_view(l)[i]) == l[i]@,
    decreases l.len(),
{
    if l.len() > 0 {
        lemma_values_view(l.drop_last());
        assert(values_view(l) == values_view(l.drop_last()).push(l.last()@));
    } else {
        assert(values_view(l) == Seq::<ValueView>::empty());
    }
}

/// The view of a sequence with one more value at its end.
pub proof fn lemma_values_view_push(l: Seq<Value>, v: Value)
    ensures
        values_view(l.push(v)) == values_view(l).push(v@),
{
    assert(l.push(v).drop_last() =~= l);
    assert(values_view(l.push(v)) == values_view(l.push(v).drop_last()).push(l.push(v).last()@));
}

/// A sequence of values whose views are known one by one has that view.
pub proof fn lemma_values_view_is(l: Seq<Value>, views: Seq<ValueView>)
    requires
        l.len() == views.len(),
        forall|i: int| 0 <= i < l.len() ==> (#[trigger] l[i])@ == views[i],
    ensures
        values_view(l) == views,
{
    lemma_values_view(l);
    assert(values_view(l) =~= views);
}

impl ValueView {
    /// The kind of the value.
    pub open spec fn kind(self) -> ValueKind {
        match self {
            ValueView::Num(_) => ValueKind::Num,
            ValueView::String(_) => ValueKind::String,
            ValueView::Bool(_) => ValueKind::Bool,
            ValueView::List(_) => ValueKind::List,
            ValueView::Nothing => ValueKind::Nothing,
        }
    }

    /// The text by which a value is shown: a number in decimal, a text as it
    /// is, `true` or `false`, `none`, and a list as its elements between
    /// brackets, separated by a comma and a space.
    pub open spec fn render(self) -> Seq<char>
        decreases self,
    {
        match self {
            ValueView::Num(n) => decimal(n as nat),
            ValueView::String(s) => s,
            ValueView::Bool(b) => if b {
                "true"@
            } else {
                "false"@
            },
            ValueView::List(l) => seq!['['] + render_items(l) + seq![']'],
            ValueView::Nothing => "none"@,
        }
    }
}

/// The elements of a list as they are shown between its brackets.
pub open spec fn render_items(l: Seq<ValueView>) -> Seq<char>
    decreases l,
{
    if l.len() == 0 {
        Seq::empty()
    } else if l.len() == 1 {
        l[0].render()
    } else {
        render_items(l.drop_last()) + ", "@ + l.last().render()
    }
}

impl ValueKind {
    /// The word by which messages call a kind of value.
    pub open spec fn name(self) -> Seq<char> {
        match self {
            ValueKind::Num => "number"@,
            ValueKind::String => "string"@,
            ValueKind::Bool => "boolean"@,
            ValueKind::Nothing => "none"@,
            ValueKind::List => "list"@,
        }
    }

    /// The word by which messages call this kind of value.
    pub fn as_str(&self) -> (res: &'static str)
        ensures
            res@ == self.name(),
    {
        match self {
            ValueKind::Num => "number",
            ValueKind::String => "string",
            ValueKind::Bool => "boolean",
            ValueKind::Nothing => "none",
            ValueKind::List => "list",
        }
    }

    /// The word by which messages call this kind of value, as an owned string.
    pub fn to_string(&self) -> (res: String)
        ensures
            res@ == self.name(),
    {
        self.as_str().to_string()
    }
}

impl From<&Value> for ValueKind {
    fn from(value: &Value) -> (res: ValueKind) {
        value.kind()
    }
}

impl vstd::std_specs::convert::FromSpecImpl<&Value> for ValueKind {
    open spec fn obeys_from_spec() -> bool {
        true
    }

    open spec fn from_spec(value: &Value) -> ValueKind {
        value@.kind()
    }
}

impl Clone for Value {
    fn clone(&self) -> (res: Self)
        ensures
            res@ == self@,
        decreases self,
    {
        match self {
            Value::Num(n) => Value::Num(*n),
            Value::String(s) => Value::String(s.clone()),
            Value::Bool(b) => Value::Bool(*b),
            Value::List(l) => {
                let mut out: Vec<Value> = Vec::new();
                let mut i: usize = 0;
                while i < l.len()
                    invariant
                        i <= l.len(),
                        out.len() == i,
                        self matches Value::List(v) && v == l,
                        forall|j: int| 0 <= j < i ==> out@[j]@ == l@[j]@,
                    decreases l.len() - i,
                {
                    out.push(l[i].clone());
                    i += 1;
                }
                proof {
                    lemma_values_view(out@);
                    lemma_values_view(l@);
                    assert(values_view(out@) =~= values_view(l@));
                }
                Value::List(out)
            },
            Value::Nothing => Value::Nothing,
        }
    }
}

impl Value {
    /// The kind of the value.
    pub fn kind(&self) -> (res: ValueKind)
        ensures
            res == self@.kind(),
    {
        match self {
            Value::Num(_) => ValueKind::Num,
            Value::String(_) => ValueKind::String,
            Value::Bool(_) => ValueKind::Bool,
            Value::List(_) => ValueKind::List,
            Value::Nothing => ValueKind::Nothing,
        }
    }

    /// Whether two values stand for the same thing.
    pub fn same(&self, other: &Value) -> (res: bool)
        ensures
            res == (self@ == other@),
        decreases self,
    {
        match self {
            Value::Num(a) => match other {
                Value::Num(b) => *a == *b,
                _ => false,
            },
            Value::String(a) => match other {
                Value::String(b) => *a == *b,
                _ => false,
            },
            Value::Bool(a) => match other {
                Value::Bool(b) => *a == *b,
                _ => false,
            },
            Value::Nothing => match other {
                Value::Nothing => true,
                _ => false,
            },
            Value::List(a) => match other {
                Value::List(b) => {
                    proof {
                        lemma_values_view(a@);
                        lemma_values_view(b@);
                    }
                    if a.len() != b.len() {
                        return false;
                    }
                    let mut i: usize = 0;
                    while i < a.len()
                        invariant
                            i <= a.len(),
                            a.len() == b.len(),
                            self matches Value::List(v) && v == a,
                            other matches Value::List(w) && w == b,
                            forall|j: int| 0 <= j < i ==> a@[j]@ == b@[j]@,
                            forall|j: int|
                                0 <= j < a.len() ==> (#[trigger] values_view(a@)[j]) == a@[j]@,
                            forall|j: int|
                                0 <= j < b.len() ==> (#[trigger] values_view(b@)[j]) == b@[j]@,
                        decreases a.len() - i,
                    {
                        if !a[i].same(&b[i]) {
                            assert(values_view(a@)[i as int] != values_view(b@)[i as int]);
                            return false;
                        }
                        i += 1;
                    }
                    assert(values_view(a@) =~= values_view(b@));
                    true
                },
                _ => false,
            },
        }
    }

    /// Appends the text by which the value is shown to `out`.
    pub fn write_to(&self, out: &mut String)
        ensures
            final(out)@ == old(out)@ + self@.render(),
        decreases self,
    {
        match self {
            Value::Num(n) => {
                push_decimal(out, *n);
            },
            Value::String(s) => {
                out.append(s.as_str());
            },
            Value::Bool(b) => {
                if *b {
                    out.append("true");
                } else {
                    out.append("false");
                }
            },
            Value::Nothing => {
                out.append("none");
            },
            Value::List(l) => {
                let ghost start = out@;
                let ghost items = values_view(l@);
                out.push('[');
                let mut i: usize = 0;
                proof {
                    lemma_values_view(l@);
                    assert(items.take(0) =~= Seq::<ValueView>::empty());
                    assert(out@ =~= start + seq!['['] + render_items(items.take(0)));
                }
                while i < l.len()
                    invariant
                        i <= l.len(),
                        self matches Value::List(v) && v == l,
                        items == values_view(l@),
                        items.len() == l.len(),
                        forall|j: int| 0 <= j < l.len() ==> (#[trigger] items[j]) == l@[j]@,
                        out@ == start + seq!['['] + render_items(items.take(i as int)),
                    decreases l.len() - i,
                {
                    let ghost before = out@;
                    if i > 0 {
                        out.append(", ");
                    }
                    l[i].write_to(out);
                    proof {
                        let done = items.take(i as int);
                        let next = items.take(i as int + 1);
                        assert(next.drop_last() =~= done);
                        assert(next.last() == l@[i as int]@);
                        if i == 0 {
                            assert(done =~= Seq::<ValueView>::empty());
                            assert(render_items(next) == next[0].render());
                            assert(out@ =~= start + seq!['['] + render_items(next));
                        } else {
                            assert(render_items(next) == render_items(done) + ", "@
                                + next.last().render());
                            assert(out@ =~= start + seq!['['] + render_items(next));
                        }
                    }
                    i += 1;
                }
                out.push(']');
                proof {
                    assert(items.take(l.len() as int) =~= items);
                    assert(out@ =~= start + (seq!['['] + render_items(items) + seq![']']));
                }
            },
        }
    }

    /// The text by which the value is shown.
    pub fn to_string(&self) -> (res: String)
        ensures
            res@ == self@.render(),
    {
        let mut out = String::new();
        self.write_to(&mut out);
        assert(out@ =~= self@.render());
        out
    }
}

impl PartialEq for Value {
    fn eq(&self, other: &Self) -> (res: bool) {
        self.same(other)
    }
}

impl Eq for Value {}

impl vstd::std_specs::cmp::PartialEqSpecImpl for Value {
    open spec fn obeys_eq_spec() -> bool {
        true
    }

    open spec fn eq_spec(&self, other: &Self) -> bool {
        self@ == other@
    }
}

} // verus!
