use vstd::prelude::*;
use crate::keyed::{first_index, has_key, is_first_index, lemma_first_index, put, value_at};
use crate::value::Shape;

verus! {

/// A value without the order of its objects' properties: what two objects
/// hold is the same when each name stands for the same in both.
pub enum Unordered {
    Integer(i32),
    Float(Seq<char>),
    Boolean(bool),
    Text(Seq<char>),
    List(Seq<Unordered>),
    Dict(Map<Seq<char>, Unordered>),
}

/// What `shape` holds when the order of properties is left aside. Of two
/// properties with one name the first counts.
pub open spec fn unordered(shape: Shape) -> Unordered
    decreases shape,
{
    match shape {
        Shape::Integer(n) => Unordered::Integer(n),
        Shape::Float(text) => Unordered::Float(text),
        Shape::Boolean(b) => Unordered::Boolean(b),
        Shape::Text(text) => Unordered::Text(text),
        Shape::Array(items) => Unordered::List(
            Seq::new(
                items.len(),
                |i: int|
                    if 0 <= i < items.len() {
                        unordered(items[i])
                    } else {
                        arbitrary()
                    },
            ),
        ),
        Shape::Object(entries) => Unordered::Dict(
            Map::new(
                |key: Seq<char>| has_key(entries, key),
                |key: Seq<char>|
                    {
                        let i = first_index(entries, key);
                        if 0 <= i < entries.len() {
                            unordered(entries[i].1)
                        } else {
                            arbitrary()
                        }
                    },
            ),
        ),
    }
}

/// The properties of an object by name, order left aside.
pub open spec fn properties(entries: Seq<(Seq<char>, Shape)>) -> Map<Seq<char>, Unordered> {
    unordered(Shape::Object(entries))->Dict_0
}

/// Whether two values hold the same, the order of properties left aside.
pub open spec fn same_value(a: Shape, b: Shape) -> bool {
    unordered(a) == unordered(b)
}

/// The names that an object has properties for, and what stands under each.
pub proof fn lemma_properties(entries: Seq<(Seq<char>, Shape)>)
    ensures
        forall|key: Seq<char>| #[trigger]
            properties(entries).dom().contains(key) <==> has_key(entries, key),
        forall|key: Seq<char>|
            has_key(entries, key) ==> #[trigger] properties(entries)[key] == unordered(
                value_at(entries, key),
            ),
{
    assert forall|key: Seq<char>| has_key(entries, key) implies #[trigger] properties(entries)[key]
        == unordered(value_at(entries, key)) by {
        lemma_first_index(entries, key);
    }
}

/// Replacing the value of an entry leaves every search where it was.
pub proof fn lemma_first_index_update<V>(
    entries: Seq<(Seq<char>, V)>,
    i: int,
    value: V,
    key: Seq<char>,
)
    requires
        0 <= i < entries.len(),
    ensures
        first_index(entries.update(i, (entries[i].0, value)), key) == first_index(entries, key),
{
    let updated = entries.update(i, (entries[i].0, value));
    lemma_first_index(entries, key);
    lemma_first_index(updated, key);
    let f = first_index(entries, key);
    assert(is_first_index(updated, key, f));
}

/// A search in a list with one more entry at its end.
pub proof fn lemma_first_index_push<V>(
    entries: Seq<(Seq<char>, V)>,
    entry: (Seq<char>, V),
    key: Seq<char>,
)
    ensures
        has_key(entries, key) ==> first_index(entries.push(entry), key) == first_index(
            entries,
            key,
        ),
        !has_key(entries, key) && entry.0 == key ==> first_index(entries.push(entry), key)
            == entries.len(),
        !has_key(entries, key) && entry.0 != key ==> first_index(entries.push(entry), key)
            == entries.len() + 1,
{
    let pushed = entries.push(entry);
    lemma_first_index(entries, key);
    lemma_first_index(pushed, key);
    let f = first_index(entries, key);
    if has_key(entries, key) {
        assert(is_first_index(pushed, key, f));
    } else if entry.0 == key {
        assert(is_first_index(pushed, key, entries.len() as int));
    }
}

/// Setting a property sets it by name, whatever the order.
pub proof fn lemma_put_properties(entries: Seq<(Seq<char>, Shape)>, key: Seq<char>, value: Shape)
    ensures
        properties(put(entries, key, value)) == properties(entries).insert(key, unordered(value)),
{
    let after = put(entries, key, value);
    lemma_first_index(entries, key);
    assert forall|k: Seq<char>| #[trigger]
        properties(after).dom().contains(k) <==> properties(entries).insert(
            key,
            unordered(value),
        ).dom().contains(k) by {
        if has_key(entries, key) {
            lemma_first_index_update(entries, first_index(entries, key), value, k);
        } else {
            lemma_first_index_push(entries, (key, value), k);
        }
    }
    assert forall|k: Seq<char>| #[trigger] properties(after).dom().contains(k) implies properties(
        after,
    )[k] == properties(entries).insert(key, unordered(value))[k] by {
        lemma_first_index(after, k);
        if has_key(entries, key) {
            lemma_first_index_update(entries, first_index(entries, key), value, k);
        } else {
            lemma_first_index_push(entries, (key, value), k);
        }
    }
}

} // verus!
