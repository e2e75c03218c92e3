use vstd::prelude::*;

verus! {

/// Whether `i` is where a search for `key` from the front of `entries` ends:
/// at the first entry under that key, or behind the last entry if there is none.
pub open spec fn is_first_index<V>(entries: Seq<(Seq<char>, V)>, key: Seq<char>, i: int) -> bool {
    &&& 0 <= i <= entries.len()
    &&& forall|j: int| 0 <= j < i ==> (#[trigger] entries[j]).0 != key
    &&& i < entries.len() ==> entries[i].0 == key
}

/// The index of the first entry under `key`, or the length of `entries` if
/// no entry has that key.
pub open spec fn first_index<V>(entries: Seq<(Seq<char>, V)>, key: Seq<char>) -> int
    decreases entries.len(),
{
    if entries.len() == 0 {
        0
    } else if entries[0].0 == key {
        0
    } else {
        1 + first_index(entries.skip(1), key)
    }
}

/// Whether some entry has the key `key`.
pub open spec fn has_key<V>(entries: Seq<(Seq<char>, V)>, key: Seq<char>) -> bool {
    first_index(entries, key) < entries.len()
}

/// The value of the first entry under `key`.
pub open spec fn value_at<V>(entries: Seq<(Seq<char>, V)>, key: Seq<char>) -> V
    recommends
        has_key(entries, key),
{
    entries[first_index(entries, key)].1
}

/// `entries` after `key` has been set to `value`: the first entry under the
/// key is replaced where it stands, and without one a new entry comes last.
pub open spec fn put<V>(entries: Seq<(Seq<char>, V)>, key: Seq<char>, value: V) -> Seq<
    (Seq<char>, V),
> {
    if has_key(entries, key) {
        entries.update(first_index(entries, key), (key, value))
    } else {
        entries.push((key, value))
    }
}

/// `entries` after each entry of `extra` has been set in turn.
pub open spec fn put_all<V>(entries: Seq<(Seq<char>, V)>, extra: Seq<(Seq<char>, V)>) -> Seq<
    (Seq<char>, V),
>
    decreases extra.len(),
{
    if extra.len() == 0 {
        entries
    } else {
        put(put_all(entries, extra.drop_last()), extra.last().0, extra.last().1)
    }
}

/// Whether no two entries share a key.
pub open spec fn distinct_keys<V>(entries: Seq<(Seq<char>, V)>) -> bool {
    forall|i: int, j: int|
        0 <= i < j < entries.len() ==> (#[trigger] entries[i]).0 != (#[trigger] entries[j]).0
}

/// `first_index` is the one index that `is_first_index` accepts.
pub proof fn lemma_first_index<V>(entries: Seq<(Seq<char>, V)>, key: Seq<char>)
    ensures
        is_first_index(entries, key, first_index(entries, key)),
        forall|i: int| is_first_index(entries, key, i) ==> i == first_index(entries, key),
    decreases entries.len(),
{
    if entries.len() != 0 && entries[0].0 != key {
        let rest = entries.skip(1);
        lemma_first_index(rest, key);
        let f = first_index(rest, key);
        assert forall|j: int| 0 <= j < f + 1 implies (#[trigger] entries[j]).0 != key by {
            if j > 0 {
                assert(rest[j - 1] == entries[j]);
            }
        }
    }
}

/// An index whose entry has the key, with no such entry before it, is the
/// first index of the key.
pub proof fn lemma_first_index_is<V>(entries: Seq<(Seq<char>, V)>, key: Seq<char>, i: int)
    requires
        is_first_index(entries, key, i),
    ensures
        first_index(entries, key) == i,
        has_key(entries, key) == (i < entries.len()),
{
    lemma_first_index(entries, key);
}

/// Two lists that hold the same keys in the same order are searched alike.
pub proof fn lemma_first_index_by_keys<V, W>(
    a: Seq<(Seq<char>, V)>,
    b: Seq<(Seq<char>, W)>,
    key: Seq<char>,
)
    requires
        a.len() == b.len(),
        forall|i: int| 0 <= i < a.len() ==> (#[trigger] a[i]).0 == b[i].0,
    ensures
        first_index(a, key) == first_index(b, key),
{
    lemma_first_index(a, key);
    lemma_first_index(b, key);
    let f = first_index(a, key);
    assert(is_first_index(b, key, f)) by {
        assert forall|j: int| 0 <= j < f implies (#[trigger] b[j]).0 != key by {
            assert(a[j].0 != key);
        }
    }
}

/// Setting a key leaves each key with one entry.
pub proof fn lemma_put_distinct<V>(entries: Seq<(Seq<char>, V)>, key: Seq<char>, value: V)
    requires
        distinct_keys(entries),
    ensures
        distinct_keys(put(entries, key, value)),
{
    lemma_first_index(entries, key);
}

} // verus!
