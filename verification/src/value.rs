//! The parsed value tree and its mathematical view.

use vstd::prelude::*;

verus! {

/// A node of a parsed document.
///
/// An object keeps its members as an ordered list of `(key, value)` pairs: the
/// order is the order in the source, and a key that occurs twice is kept twice.
#[derive(Debug, PartialEq)]
pub enum Value {
    String(String),
    Number(i32),
    Array(Vec<Value>),
    Bool(bool),
    Null,
    Object(Vec<(String, Value)>),
}

/// One member of an object, as the contracts see it.
pub struct MemberView {
    pub key: Seq<char>,
    pub value: ValueView,
}

/// The mathematical value that a [`Value`] stands for.
pub enum ValueView {
    String(Seq<char>),
    Number(int),
    Array(Seq<ValueView>),
    Bool(bool),
    Null,
    Object(Seq<MemberView>),
}

impl View for Value {
    type V = ValueView;

    open spec fn view(&self) -> ValueView
        decreases self,
    {
        match self {
            Value::String(s) => ValueView::String(s@),
            Value::Number(n) => ValueView::Number(*n as int),
            Value::Array(items) => ValueView::Array(
                Seq::new(
                    items.len() as nat,
                    |i: int|
                        if 0 <= i < items.len() {
                            items[i].view()
                        } else {
                            ValueView::Null
                        },
                ),
            ),
            Value::Bool(b) => ValueView::Bool(*b),
            Value::Null => ValueView::Null,
            Value::Object(pairs) => ValueView::Object(
                Seq::new(
                    pairs.len() as nat,
                    |i: int|
                        if 0 <= i < pairs.len() {
                            MemberView { key: pairs[i].0@, value: pairs[i].1.view() }
                        } else {
                            MemberView { key: Seq::empty(), value: ValueView::Null }
                        },
                ),
            ),
        }
    }
}

/// The views of a sequence of values, in order.
pub open spec fn value_views(items: Seq<Value>) -> Seq<ValueView> {
    Seq::new(items.len(), |i: int| items[i]@)
}

/// The views of a sequence of `(key, value)` pairs, in order.
pub open spec fn member_views(pairs: Seq<(String, Value)>) -> Seq<MemberView> {
    Seq::new(pairs.len(), |i: int| MemberView { key: pairs[i].0@, value: pairs[i].1@ })
}

/// An array is viewed as the views of its items.
pub proof fn lemma_array_view(items: Vec<Value>)
    ensures
        Value::Array(items)@ == ValueView::Array(value_views(items@)),
{
    assert(Value::Array(items)@->Array_0 =~= value_views(items@));
}

/// An object is viewed as the views of its members.
pub proof fn lemma_object_view(pairs: Vec<(String, Value)>)
    ensures
        Value::Object(pairs)@ == ValueView::Object(member_views(pairs@)),
{
    assert(Value::Object(pairs)@->Object_0 =~= member_views(pairs@));
}

/// Deep copies of `items`, in order.
fn clone_items(items: &Vec<Value>) -> (out: Vec<Value>)
    ensures
        value_views(out@) == value_views(items@),
    decreases items,
{
    let mut out: Vec<Value> = Vec::new();
    let mut i: usize = 0;
    while i < items.len()
        invariant
            i <= items.len(),
            out@.len() == i,
            forall|j: int| 0 <= j < i ==> out@[j]@ == items@[j]@,
        decreases items.len() - i,
    {
        let item = items[i].clone();
        out.push(item);
        i += 1;
    }
    out
}

/// Deep copies of `pairs`, in order and with their keys.
fn clone_pairs(pairs: &Vec<(String, Value)>) -> (out: Vec<(String, Value)>)
    ensures
        member_views(out@) == member_views(pairs@),
    decreases pairs,
{
    let mut out: Vec<(String, Value)> = Vec::new();
    let mut i: usize = 0;
    while i < pairs.len()
        invariant
            i <= pairs.len(),
            out@.len() == i,
            forall|j: int|
                0 <= j < i ==> out@[j].0@ == pairs@[j].0@ && out@[j].1@ == pairs@[j].1@,
        decreases pairs.len() - i,
    {
        let key = pairs[i].0.clone();
        let value = pairs[i].1.clone();
        out.push((key, value));
        i += 1;
    }
    out
}

impl Clone for Value {
    /// A deep copy: the copy stands for the same mathematical value.
    fn clone(&self) -> (copy: Self)
        ensures
            copy@ == self@,
        decreases self,
    {
        match self {
            Value::String(s) => Value::String(s.clone()),
            Value::Number(n) => Value::Number(*n),
            Value::Array(items) => {
                let out = clone_items(items);
                proof {
                    lemma_array_view(out);
                    lemma_array_view(*items);
                }
                Value::Array(out)
            },
            Value::Bool(b) => Value::Bool(*b),
            Value::Null => Value::Null,
            Value::Object(pairs) => {
                let out = clone_pairs(pairs);
                proof {
                    lemma_object_view(out);
                    lemma_object_view(*pairs);
                }
                Value::Object(out)
            },
        }
    }
}

} // verus!
