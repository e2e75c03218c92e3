use vstd::prelude::*;
use crate::keyed::{first_index, lemma_first_index, lemma_first_index_is, put};
use crate::error::{Failure, ParseError};
use crate::text::same_text;

verus! {

/// The shape of a value: what it holds, every string taken as its characters.
pub enum Shape {
    Integer(i32),
    Float(Seq<char>),
    Boolean(bool),
    Text(Seq<char>),
    Array(Seq<Shape>),
    Object(Seq<(Seq<char>, Shape)>),
}

/// A value of the final representation: a number, a boolean, a string, an
/// array of values, or an object whose properties keep the order in which
/// they were first set. A number that is no 32-bit integer is held as the
/// decimal text it was read from.
#[derive(Debug, PartialEq)]
pub enum Value {
    Integer(i32),
    Float(String),
    Boolean(bool),
    String(String),
    Array(Vec<Value>),
    Object(Vec<(String, Value)>),
}

/// The shape of `value`.
pub open spec fn shape_of(value: Value) -> Shape
    decreases value,
{
    match value {
        Value::Integer(n) => Shape::Integer(n),
        Value::Float(text) => Shape::Float(text@),
        Value::Boolean(b) => Shape::Boolean(b),
        Value::String(text) => Shape::Text(text@),
        Value::Array(items) => Shape::Array(
            Seq::new(
                items.len() as nat,
                |i: int|
                    if 0 <= i < items.len() {
                        shape_of(items[i])
                    } else {
                        Shape::Boolean(false)
                    },
            ),
        ),
        Value::Object(entries) => Shape::Object(
            Seq::new(
                entries.len() as nat,
                |i: int|
                    if 0 <= i < entries.len() {
                        (entries[i].0@, shape_of(entries[i].1))
                    } else {
                        (Seq::empty(), Shape::Boolean(false))
                    },
            ),
        ),
    }
}

/// The shapes of the items of an array, in order.
pub open spec fn shapes_of(items: Seq<Value>) -> Seq<Shape> {
    Seq::new(items.len(), |i: int| shape_of(items[i]))
}

/// The properties of an object, in order, each with the shape of its value.
pub open spec fn entries_of(entries: Seq<(String, Value)>) -> Seq<(Seq<char>, Shape)> {
    Seq::new(entries.len(), |i: int| (entries[i].0@, shape_of(entries[i].1)))
}

impl View for Value {
    type V = Shape;

    open spec fn view(&self) -> Shape {
        shape_of(*self)
    }
}

/// The shape of an array is the array of its items' shapes.
pub proof fn lemma_array_shape(items: Vec<Value>)
    ensures
        shape_of(Value::Array(items)) == Shape::Array(shapes_of(items@)),
{
    assert(shape_of(Value::Array(items))->Array_0 =~= shapes_of(items@));
}

/// The shape of an object is the object of its properties' shapes.
pub proof fn lemma_object_shape(entries: Vec<(String, Value)>)
    ensures
        shape_of(Value::Object(entries)) == Shape::Object(entries_of(entries@)),
{
    assert(shape_of(Value::Object(entries))->Object_0 =~= entries_of(entries@));
}

/// The index of the first property named `key`, or the number of properties
/// if there is none.
pub fn find_key(entries: &Vec<(String, Value)>, key: &str) -> (i: usize)
    ensures
        i == first_index(entries_of(entries@), key@),
        i <= entries.len(),
{
    let mut i: usize = 0;
    while i < entries.len()
        invariant
            i <= entries.len(),
            forall|j: int| 0 <= j < i ==> (#[trigger] entries_of(entries@)[j]).0 != key@,
        decreases entries.len() - i,
    {
        if same_text(entries[i].0.as_str(), key) {
            proof {
                lemma_first_index_is(entries_of(entries@), key@, i as int);
            }
            return i;
        }
        i = i + 1;
    }
    proof {
        lemma_first_index_is(entries_of(entries@), key@, i as int);
    }
    i
}

/// Sets the property `key` of an object to `value`: an earlier value under
/// the key is replaced where it stands, a new key comes last.
pub fn set_property(entries: &mut Vec<(String, Value)>, key: &str, value: Value)
    ensures
        entries_of(final(entries)@) == put(entries_of(old(entries)@), key@, value@),
{
    let i = find_key(entries, key);
    proof {
        lemma_first_index(entries_of(entries@), key@);
    }
    if i < entries.len() {
        let (name, _) = entries.remove(i);
        entries.insert(i, (name, value));
    } else {
        entries.push((key.to_owned(), value));
    }
}

/// Copies of the items of an array, in order.
fn clone_items(items: &Vec<Value>) -> (copies: Vec<Value>)
    ensures
        shapes_of(copies@) == shapes_of(items@),
    decreases items, 0int,
{
    let mut copies: Vec<Value> = Vec::new();
    let mut i: usize = 0;
    while i < items.len()
        invariant
            i <= items.len(),
            shapes_of(copies@) == shapes_of(items@).take(i as int),
        decreases items.len() - i,
    {
        let ghost before = shapes_of(copies@);
        let copy = items[i].clone();
        copies.push(copy);
        assert(shapes_of(copies@) =~= before.push(copy@));
        i = i + 1;
    }
    copies
}

/// Copies of the properties of an object, in order.
fn clone_entries(entries: &Vec<(String, Value)>) -> (copies: Vec<(String, Value)>)
    ensures
        entries_of(copies@) == entries_of(entries@),
    decreases entries, 0int,
{
    let mut copies: Vec<(String, Value)> = Vec::new();
    let mut i: usize = 0;
    while i < entries.len()
        invariant
            i <= entries.len(),
            entries_of(copies@) == entries_of(entries@).take(i as int),
        decreases entries.len() - i,
    {
        let ghost before = entries_of(copies@);
        let copy = entries[i].1.clone();
        let key = entries[i].0.clone();
        copies.push((key, copy));
        assert(entries_of(copies@) =~= before.push((key@, copy@)));
        i = i + 1;
    }
    copies
}

impl Clone for Value {
    /// A value of the same shape.
    fn clone(&self) -> (copy: Self)
        ensures
            copy@ == self@,
        decreases self, 1int,
    {
        match self {
            Value::Integer(n) => Value::Integer(*n),
            Value::Float(text) => Value::Float(text.clone()),
            Value::Boolean(b) => Value::Boolean(*b),
            Value::String(text) => Value::String(text.clone()),
            Value::Array(items) => {
                let copies = clone_items(items);
                proof {
                    lemma_array_shape(*items);
                    lemma_array_shape(copies);
                }
                Value::Array(copies)
            },
            Value::Object(entries) => {
                let copies = clone_entries(entries);
                proof {
                    lemma_object_shape(*entries);
                    lemma_object_shape(copies);
                }
                Value::Object(copies)
            },
        }
    }
}

/// What a conversion gave: the shape of the value, or what the error holds.
pub open spec fn outcome(r: Result<Value, ParseError>) -> Result<Shape, Failure> {
    match r {
        Ok(value) => Ok(value@),
        Err(error) => Err(error@),
    }
}

} // verus!
