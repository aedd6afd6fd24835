use vstd::prelude::*;
use crate::integer::Integer;

verus! {

/// The variant of a [`Value`], without its content.
#[derive(Clone, Copy, Debug, PartialEq, Eq, Structural)]
pub enum Kind {
    Number,
    Boolean,
    Text,
    List,
    Absence,
}

/// A runtime value. Numbers are integers of any size.
#[derive(Debug)]
pub enum Value {
    Number(Integer),
    Boolean(bool),
    Text(String),
    List(Vec<Value>),
    Absence,
}

/// The mathematical content of a [`Value`].
pub ghost enum ValueView {
    Number(int),
    Boolean(bool),
    Text(Seq<char>),
    List(Seq<ValueView>),
    Absence,
}

impl ValueView {
    /// The variant of the value.
    pub open spec fn kind(self) -> Kind {
        match self {
            ValueView::Number(_) => Kind::Number,
            ValueView::Boolean(_) => Kind::Boolean,
            ValueView::Text(_) => Kind::Text,
            ValueView::List(_) => Kind::List,
            ValueView::Absence => Kind::Absence,
        }
    }
}

/// The views of the values of `items`, in order.
pub open spec fn views(items: Seq<Value>) -> Seq<ValueView>
    decreases items,
{
    if items.len() == 0 {
        Seq::empty()
    } else {
        views(items.drop_last()).push(items.last()@)
    }
}

impl View for Value {
    type V = ValueView;

    open spec fn view(&self) -> ValueView
        decreases self,
    {
        match self {
            Value::Number(n) => ValueView::Number(n@),
            Value::Boolean(b) => ValueView::Boolean(*b),
            Value::Text(s) => ValueView::Text(s@),
            Value::List(items) => ValueView::List(views(items@)),
            Value::Absence => ValueView::Absence,
        }
    }
}

/// `views` keeps the length and maps each item to its view.
pub proof fn lemma_views(items: Seq<Value>)
    ensures
        views(items).len() == items.len(),
        forall|i: int| 0 <= i < items.len() ==> (#[trigger] views(items)[i]) == items[i]@,
    decreases items.len(),
{
    if items.len() > 0 {
        let front = views(items.drop_last());
        lemma_views(items.drop_last());
        assert(views(items) == front.push(items.last()@));
        assert forall|i: int| 0 <= i < items.len() implies (#[trigger] views(items)[i])
            == items[i]@ by {
            if i < items.len() - 1 {
                assert(front[i] == items.drop_last()[i]@);
            }
        }
    }
}

/// `views` of a sequence with one more item.
pub proof fn lemma_views_push(items: Seq<Value>, last: Value)
    ensures
        views(items.push(last)) == views(items).push(last@),
{
    assert(items.push(last).drop_last() =~= items);
}

impl Value {
    /// The number `n`.
    pub fn number(n: i64) -> (value: Value)
        ensures
            value@ == ValueView::Number(n as int),
    {
        Value::Number(Integer::from_i64(n))
    }

    /// The variant of this value.
    pub fn kind(&self) -> (k: Kind)
        ensures
            k == self@.kind(),
    {
        match self {
            Value::Number(_) => Kind::Number,
            Value::Boolean(_) => Kind::Boolean,
            Value::Text(_) => Kind::Text,
            Value::List(_) => Kind::List,
            Value::Absence => Kind::Absence,
        }
    }

    /// Whether two values have the same content.
    pub fn same(&self, other: &Value) -> (equal: bool)
        ensures
            equal == (self@ == other@),
        decreases self, 1nat,
    {
        match (self, other) {
            (Value::Number(a), Value::Number(b)) => a.same(b),
            (Value::Boolean(a), Value::Boolean(b)) => *a == *b,
            (Value::Text(a), Value::Text(b)) => *a == *b,
            (Value::Absence, Value::Absence) => true,
            (Value::List(a), Value::List(b)) => same_items(a, b),
            _ => false,
        }
    }

    /// A copy with the same content.
    pub fn duplicate(&self) -> (copy: Value)
        ensures
            copy@ == self@,
        decreases self, 1nat,
    {
        match self {
            Value::Number(n) => Value::Number(n.duplicate()),
            Value::Boolean(b) => Value::Boolean(*b),
            Value::Text(s) => Value::Text(s.clone()),
            Value::Absence => Value::Absence,
            Value::List(items) => Value::List(duplicate_items(items)),
        }
    }
}

fn same_items(a: &Vec<Value>, b: &Vec<Value>) -> (equal: bool)
    ensures
        equal == (views(a@) == views(b@)),
    decreases a, 0nat,
{
    proof {
        lemma_views(a@);
        lemma_views(b@);
    }
    if a.len() != b.len() {
        return false;
    }
    let mut i: usize = 0;
    while i < a.len()
        invariant
            i <= a.len(),
            a.len() == b.len(),
            forall|j: int| 0 <= j < i ==> a@[j]@ == b@[j]@,
            forall|j: int| 0 <= j < a.len() ==> (#[trigger] views(a@)[j]) == a@[j]@,
            forall|j: int| 0 <= j < b.len() ==> (#[trigger] views(b@)[j]) == b@[j]@,
        decreases a.len() - i,
    {
        assert(decreases_to!(a => a[i as int]));
        if !a[i].same(&b[i]) {
            assert(views(a@)[i as int] != views(b@)[i as int]);
            return false;
        }
        i += 1;
    }
    assert(views(a@) =~= views(b@));
    true
}

fn duplicate_items(items: &Vec<Value>) -> (copies: Vec<Value>)
    ensures
        views(copies@) == views(items@),
    decreases items, 0nat,
{
    let mut copies: Vec<Value> = Vec::new();
    let mut i: usize = 0;
    while i < items.len()
        invariant
            i <= items.len(),
            copies.len() == i,
            forall|j: int| 0 <= j < i ==> copies@[j]@ == items@[j]@,
        decreases items.len() - i,
    {
        assert(decreases_to!(items => items[i as int]));
        copies.push(items[i].duplicate());
        i += 1;
    }
    proof {
        lemma_views(items@);
        lemma_views(copies@);
        assert(views(copies@) =~= views(items@));
    }
    copies
}

impl Clone for Value {
    fn clone(&self) -> (copy: Value)
        ensures
            copy@ == self@,
    {
        self.duplicate()
    }
}

impl PartialEq for Value {
    fn eq(&self, other: &Value) -> (equal: bool) {
        self.same(other)
    }
}

impl vstd::std_specs::cmp::PartialEqSpecImpl for Value {
    open spec fn obeys_eq_spec() -> bool {
        true
    }

    open spec fn eq_spec(&self, other: &Value) -> bool {
        self@ == other@
    }
}

} // verus!
