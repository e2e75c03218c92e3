use vstd::prelude::*;
use crate::keyed::{
    distinct_keys, first_index, has_key, lemma_first_index, lemma_first_index_by_keys,
    lemma_first_index_is, put_all, value_at,
};
use crate::error::Failure;
use crate::events::{xml_events, Event};
use crate::xml_node::{
    coerce, grown, opened, root_element, tree_of_events, tree_run, tree_step, with_child, Element,
    Scalar, Slot,
};
use crate::xml_to_js_object::{
    childless_value, closed_value, direct_result, direct_run, direct_step, merge, merged,
    root_frame, text_shape, with_content, with_value, FrameShape, NodeFlags,
};
use crate::xml_to_struct_to_js_object::indirect_result;
use crate::xml_to_struct_to_js_object::{
    collected, content_shape, flattened, flattened_all, flattened_children, flattened_slot,
    own_entries,
};
use crate::unordered::{
    lemma_first_index_push, lemma_first_index_update, lemma_properties, lemma_put_properties,
    properties, same_value, unordered, Unordered,
};
use crate::value::Shape;

verus! {

/// The properties `base` after each entry of `extra` has been set by name, in turn.
pub open spec fn set_all(base: Map<Seq<char>, Unordered>, extra: Seq<(Seq<char>, Shape)>) -> Map<
    Seq<char>,
    Unordered,
>
    decreases extra.len(),
{
    if extra.len() == 0 {
        base
    } else {
        set_all(base, extra.drop_last()).insert(extra.last().0, unordered(extra.last().1))
    }
}

/// Setting entries one after the other sets them by name.
pub proof fn lemma_put_all_properties(
    entries: Seq<(Seq<char>, Shape)>,
    extra: Seq<(Seq<char>, Shape)>,
)
    ensures
        properties(put_all(entries, extra)) == set_all(properties(entries), extra),
    decreases extra.len(),
{
    if extra.len() > 0 {
        lemma_put_all_properties(entries, extra.drop_last());
        lemma_put_properties(put_all(entries, extra.drop_last()), extra.last().0, extra.last().1);
    }
}

/// A name that `extra` does not hold stands after `set_all` for what it
/// stood for before.
pub proof fn lemma_set_all_other(
    base: Map<Seq<char>, Unordered>,
    extra: Seq<(Seq<char>, Shape)>,
    key: Seq<char>,
)
    requires
        !has_key(extra, key),
    ensures
        set_all(base, extra).dom().contains(key) == base.dom().contains(key),
        set_all(base, extra)[key] == base[key],
    decreases extra.len(),
{
    lemma_first_index(extra, key);
    if extra.len() > 0 {
        let front = extra.drop_last();
        assert(!has_key(front, key)) by {
            lemma_first_index(front, key);
        }
        lemma_set_all_other(base, front, key);
    }
}

/// A name that `extra` holds once stands after `set_all` for the value that
/// `extra` gives it.
pub proof fn lemma_set_all_found(
    base: Map<Seq<char>, Unordered>,
    extra: Seq<(Seq<char>, Shape)>,
    i: int,
)
    requires
        distinct_keys(extra),
        0 <= i < extra.len(),
    ensures
        set_all(base, extra).dom().contains(extra[i].0),
        set_all(base, extra)[extra[i].0] == unordered(extra[i].1),
    decreases extra.len(),
{
    let front = extra.drop_last();
    if i < extra.len() - 1 {
        lemma_set_all_found(base, front, i);
    }
}

/// Replacing the value of one of the entries of `extra`, each of a name of
/// its own, sets that name to the new value.
pub proof fn lemma_set_all_update(
    base: Map<Seq<char>, Unordered>,
    extra: Seq<(Seq<char>, Shape)>,
    i: int,
    value: Shape,
)
    requires
        distinct_keys(extra),
        0 <= i < extra.len(),
    ensures
        set_all(base, extra.update(i, (extra[i].0, value))) == set_all(base, extra).insert(
            extra[i].0,
            unordered(value),
        ),
    decreases extra.len(),
{
    let updated = extra.update(i, (extra[i].0, value));
    let front = extra.drop_last();
    if i == extra.len() - 1 {
        assert(updated.drop_last() =~= front);
    } else {
        assert(distinct_keys(front)) by {
            assert forall|a: int, b: int| 0 <= a < b < front.len() implies (#[trigger] front[a]).0
                != (#[trigger] front[b]).0 by {}
        }
        assert(updated.drop_last() =~= front.update(i, (front[i].0, value)));
        lemma_set_all_update(base, front, i, value);
    }
}

/// A name set in `base` that `extra` does not hold is set as well after `set_all`.
pub proof fn lemma_set_all_base(
    base: Map<Seq<char>, Unordered>,
    extra: Seq<(Seq<char>, Shape)>,
    key: Seq<char>,
    value: Unordered,
)
    requires
        !has_key(extra, key),
    ensures
        set_all(base.insert(key, value), extra) == set_all(base, extra).insert(key, value),
    decreases extra.len(),
{
    lemma_first_index(extra, key);
    if extra.len() > 0 {
        let front = extra.drop_last();
        assert(!has_key(front, key)) by {
            lemma_first_index(front, key);
            let f = first_index(front, key);
            if f < front.len() {
                assert(front[f] == extra[f]);
            }
        }
        lemma_set_all_base(base, front, key, value);
    }
}

/// What stands under a name, order left aside, once `new` has been merged
/// into what stood there before.
pub open spec fn merged_unordered(previous: Option<Unordered>, new: Unordered) -> Unordered {
    match previous {
        None => new,
        Some(Unordered::List(items)) => Unordered::List(items.push(new)),
        Some(other) => Unordered::List(seq![other, new]),
    }
}

/// What the name `key` stands for among `entries`, if for anything.
pub open spec fn property(entries: Seq<(Seq<char>, Shape)>, key: Seq<char>) -> Option<Unordered> {
    if has_key(entries, key) {
        Some(properties(entries)[key])
    } else {
        None
    }
}

/// What an array holds, order of properties left aside.
pub proof fn lemma_unordered_array(items: Seq<Shape>)
    ensures
        unordered(Shape::Array(items)) is List,
        unordered(Shape::Array(items))->List_0.len() == items.len(),
        forall|i: int|
            0 <= i < items.len() ==> #[trigger] unordered(Shape::Array(items))->List_0[i]
                == unordered(items[i]),
{
}

/// Merging a value into an object merges it by name, whatever the order.
pub proof fn lemma_merge_properties(entries: Seq<(Seq<char>, Shape)>, key: Seq<char>, value: Shape)
    ensures
        properties(merge(entries, key, value)) == properties(entries).insert(
            key,
            merged_unordered(property(entries, key), unordered(value)),
        ),
{
    lemma_properties(entries);
    if has_key(entries, key) {
        let previous = value_at(entries, key);
        lemma_put_properties(entries, key, merged(previous, value));
        match previous {
            Shape::Array(items) => {
                lemma_unordered_array(items);
                assert(unordered(merged(previous, value))->List_0 =~= unordered(previous)->List_0.push(
                    unordered(value),
                ));
            },
            _ => {
                assert(unordered(merged(previous, value))->List_0 =~= seq![
                    unordered(previous),
                    unordered(value),
                ]);
            },
        }
    } else {
        lemma_put_properties(entries, key, value);
    }
}

/// An element never flattens to an array.
pub proof fn lemma_flattened_not_array(element: Element)
    ensures
        !(flattened(element) is Array),
        !(unordered(flattened(element)) is List),
{
}

/// The flattened children of an element stand under the names of the children.
pub proof fn lemma_flattened_keys(children: Seq<(Seq<char>, Slot)>, key: Seq<char>)
    ensures
        first_index(flattened_children(children), key) == first_index(children, key),
        has_key(flattened_children(children), key) == has_key(children, key),
        distinct_keys(children) ==> distinct_keys(flattened_children(children)),
{
    lemma_first_index_by_keys(flattened_children(children), children, key);
}

/// Adding a child leaves each tag name with one slot.
pub proof fn lemma_with_child_distinct(
    children: Seq<(Seq<char>, Slot)>,
    name: Seq<char>,
    element: Element,
)
    requires
        distinct_keys(children),
    ensures
        distinct_keys(with_child(children, name, element)),
{
    lemma_first_index(children, name);
    let after = with_child(children, name, element);
    assert forall|i: int, j: int| 0 <= i < j < after.len() implies (#[trigger] after[i]).0 != (
    #[trigger] after[j]).0 by {}
}

/// What the children of an element flatten to once one more child has come:
/// a new name comes last with the value of the child, a known name has the
/// value of its grown slot.
pub proof fn lemma_flattened_with_child(
    children: Seq<(Seq<char>, Slot)>,
    name: Seq<char>,
    element: Element,
)
    ensures
        has_key(children, name) ==> flattened_children(with_child(children, name, element))
            == flattened_children(children).update(
            first_index(children, name),
            (name, flattened_slot(grown(value_at(children, name), element))),
        ),
        !has_key(children, name) ==> flattened_children(with_child(children, name, element))
            == flattened_children(children).push((name, flattened(element))),
{
    lemma_first_index(children, name);
}

/// What a grown slot flattens to, order of properties left aside, is what
/// the slot flattened to with the value of the new child merged in.
pub proof fn lemma_grown_slot(slot: Slot, element: Element, value: Shape)
    requires
        same_value(value, flattened(element)),
    ensures
        unordered(flattened_slot(grown(slot, element))) == merged_unordered(
            Some(unordered(flattened_slot(slot))),
            unordered(value),
        ),
{
    match slot {
        Slot::Single(first) => {
            lemma_flattened_not_array(first);
            let items = flattened_all(seq![first, element]);
            assert(unordered(Shape::Array(items))->List_0 =~= seq![
                unordered(flattened(first)),
                unordered(value),
            ]);
        },
        Slot::Many(elements) => {
            let before = flattened_all(elements);
            let after = flattened_all(elements.push(element));
            lemma_unordered_array(after);
            assert(unordered(Shape::Array(after))->List_0 =~= unordered(
                Shape::Array(before),
            )->List_0.push(unordered(value)));
        },
    }
}

/// Merging the value of a child into the object of its parent gives, order
/// left aside, the object that the parent's children are collected into once
/// the child is among them, as long as the child's name is none of the
/// parent's own properties.
pub proof fn lemma_child_merged(
    object: Seq<(Seq<char>, Shape)>,
    base: Seq<(Seq<char>, Shape)>,
    children: Seq<(Seq<char>, Slot)>,
    name: Seq<char>,
    element: Element,
    value: Shape,
)
    requires
        distinct_keys(children),
        properties(object) == properties(collected(children, base)),
        same_value(value, flattened(element)),
        !has_key(base, name),
    ensures
        properties(merge(object, name, value)) == properties(
            collected(with_child(children, name, element), base),
        ),
{
    let flat = flattened_children(children);
    let after = with_child(children, name, element);
    lemma_merge_properties(object, name, value);
    lemma_put_all_properties(base, flat);
    lemma_put_all_properties(base, flattened_children(after));
    lemma_flattened_with_child(children, name, element);
    lemma_flattened_keys(children, name);
    lemma_properties(object);
    lemma_properties(collected(children, base));
    lemma_properties(base);
    lemma_first_index(children, name);
    assert(properties(collected(children, base)) == set_all(properties(base), flat));
    if has_key(children, name) {
        let i = first_index(children, name);
        let grown_shape = flattened_slot(grown(value_at(children, name), element));
        lemma_set_all_found(properties(base), flat, i);
        lemma_set_all_update(properties(base), flat, i, grown_shape);
        lemma_grown_slot(children[i].1, element, value);
    } else {
        lemma_set_all_other(properties(base), flat, name);
        let pushed = flat.push((name, flattened(element)));
        assert(pushed.drop_last() =~= flat);
    }
}

/// Whether no element in `element`, itself included, has both attributes
/// and a child named `$`, or both content and a child named `_`.
pub open spec fn tidy(element: Element) -> bool
    decreases element,
{
    &&& !(element.attributes.len() > 0 && has_key(element.children, "$"@))
    &&& !(!(element.content is Null) && has_key(element.children, "_"@))
    &&& tidy_children(element.children)
}

/// Whether every element among `children` is tidy.
pub open spec fn tidy_children(children: Seq<(Seq<char>, Slot)>) -> bool
    decreases children,
{
    forall|i: int| 0 <= i < children.len() ==> tidy_slot((#[trigger] children[i]).1)
}

/// Whether every element of `slot` is tidy.
pub open spec fn tidy_slot(slot: Slot) -> bool
    decreases slot,
{
    match slot {
        Slot::Single(element) => tidy(element),
        Slot::Many(elements) => tidy_all(elements),
    }
}

/// Whether every element of `elements` is tidy.
pub open spec fn tidy_all(elements: Seq<Element>) -> bool
    decreases elements,
{
    forall|j: int| 0 <= j < elements.len() ==> tidy(#[trigger] elements[j])
}

/// What the direct conversion has seen of an element that looks like `element`.
pub open spec fn flags_of(element: Element) -> NodeFlags {
    NodeFlags {
        has_attributes: element.attributes.len() > 0,
        has_content: !(element.content is Null),
        has_children: element.children.len() > 0,
    }
}

/// Whether the frame of an open element holds, order left aside, what the
/// element of the tree would flatten to as an object.
pub open spec fn stands_for(frame: FrameShape, element: Element) -> bool {
    &&& frame.flags == flags_of(element)
    &&& properties(frame.object) == properties(
        collected(element.children, own_entries(element.attributes, element.content)),
    )
}

/// Whether the frame of the root holds, order left aside, what the children
/// of the root of the tree are collected into.
pub open spec fn root_stands_for(frame: FrameShape, element: Element) -> bool {
    properties(frame.object) == properties(collected(element.children, Seq::empty()))
}

/// Whether the two conversions are in step: the same elements are open, and
/// each frame stands for its element as far as that element is tidy.
pub open spec fn in_step(elements: Seq<Element>, frames: Seq<FrameShape>) -> bool {
    &&& elements.len() == frames.len()
    &&& elements.len() > 0
    &&& forall|i: int|
        0 <= i < elements.len() ==> (#[trigger] elements[i]).name == frames[i].name
            && distinct_keys(elements[i].children)
    &&& tidy_children(elements[0].children) ==> root_stands_for(frames[0], elements[0])
    &&& forall|i: int|
        1 <= i < elements.len() ==> (tidy(#[trigger] elements[i]) ==> stands_for(
            frames[i],
            elements[i],
        ))
}

/// The two reserved names differ.
pub proof fn lemma_reserved_names()
    ensures
        "$"@ != "_"@,
{
    reveal_strlit("$");
    reveal_strlit("_");
    assert("_"@[0] == '_');
}

/// The names of an element's own properties: `$` with attributes, `_` with content.
pub proof fn lemma_own_keys(attributes: Seq<(Seq<char>, Seq<char>)>, content: Scalar, key: Seq<char>)
    ensures
        has_key(own_entries(attributes, content), key) <==> (attributes.len() > 0 && key == "$"@)
            || (!(content is Null) && key == "_"@),
{
    lemma_reserved_names();
    let own = own_entries(attributes, content);
    lemma_first_index(own, key);
    if !(content is Null) && key == "_"@ {
        if attributes.len() > 0 {
            lemma_first_index_is(own, key, 1);
        } else {
            lemma_first_index_is(own, key, 0);
        }
    } else if !(attributes.len() > 0 && key == "$"@) {
        lemma_first_index_is(own, key, own.len() as int);
    }
}

/// With a new content, the own properties of an element have `_` set to it.
pub proof fn lemma_own_content(attributes: Seq<(Seq<char>, Seq<char>)>, before: Scalar, text: Seq<char>)
    ensures
        !(coerce(text) is Null),
        content_shape(coerce(text)) == Some(text_shape(text)),
        properties(own_entries(attributes, coerce(text))) == properties(
            own_entries(attributes, before),
        ).insert("_"@, unordered(text_shape(text))),
{
    let first = own_entries(attributes, Scalar::Null);
    let shape = text_shape(text);
    lemma_reserved_names();
    lemma_own_keys(attributes, Scalar::Null, "_"@);
    lemma_put_properties(first, "_"@, shape);
    match content_shape(before) {
        Some(old) => {
            lemma_put_properties(first, "_"@, old);
        },
        None => {},
    }
}

/// An element with a child more is tidy only if it was tidy before and the
/// child is tidy.
pub proof fn lemma_tidy_with_child(children: Seq<(Seq<char>, Slot)>, name: Seq<char>, child: Element)
    ensures
        tidy_children(with_child(children, name, child)) ==> tidy_children(children) && tidy(
            child,
        ),
        has_key(with_child(children, name, child), name),
        forall|key: Seq<char>|
            has_key(children, key) ==> #[trigger] has_key(with_child(children, name, child), key),
        with_child(children, name, child).len() > 0,
{
    let after = with_child(children, name, child);
    lemma_first_index(children, name);
    let f = first_index(children, name);
    if !has_key(children, name) {
        lemma_first_index_push(children, (name, Slot::Single(child)), name);
    }
    assert forall|key: Seq<char>| has_key(children, key) implies #[trigger] has_key(
        after,
        key,
    ) by {
        if has_key(children, name) {
            lemma_first_index_update(children, f, grown(children[f].1, child), key);
        } else {
            lemma_first_index_push(children, (name, Slot::Single(child)), key);
        }
    }
    if tidy_children(after) {
        if has_key(children, name) {
            match children[f].1 {
                Slot::Single(first) => {},
                Slot::Many(all) => {
                    let grown_to = all.push(child);
                    assert(tidy(grown_to[all.len() as int]));
                    assert forall|j: int| 0 <= j < all.len() implies tidy(#[trigger] all[j]) by {
                        assert(tidy(grown_to[j]));
                    }
                },
            }
        } else {
            assert forall|i: int| 0 <= i < children.len() implies tidy_slot(
                (#[trigger] children[i]).1,
            ) by {}
        }
    }
}

/// The value of an element at its closing tag is, order left aside, what
/// the element of the tree flattens to.
pub proof fn lemma_closed_value(frame: FrameShape, element: Element)
    requires
        stands_for(frame, element),
    ensures
        same_value(closed_value(frame), flattened(element)),
{
    let own = own_entries(element.attributes, element.content);
    lemma_properties(frame.object);
    if element.attributes.len() == 0 && element.children.len() == 0 {
        if !(element.content is Null) {
            assert(properties(frame.object).dom().contains("_"@));
            assert(properties(own)["_"@] == unordered(value_at(own, "_"@)));
        }
    }
}

/// Once a child has been merged into the frame of its parent, the frame
/// stands for the parent with that child, if the parent is tidy with it.
pub proof fn lemma_child_added(
    frame: FrameShape,
    parent: Element,
    name: Seq<char>,
    child: Element,
    value: Shape,
)
    requires
        distinct_keys(parent.children),
        tidy(parent) ==> stands_for(frame, parent),
        tidy(child) ==> same_value(value, flattened(child)),
    ensures
        tidy(Element { children: with_child(parent.children, name, child), ..parent })
            ==> stands_for(
            with_value(frame, name, value),
            Element { children: with_child(parent.children, name, child), ..parent },
        ),
        distinct_keys(with_child(parent.children, name, child)),
{
    let after = Element { children: with_child(parent.children, name, child), ..parent };
    lemma_with_child_distinct(parent.children, name, child);
    lemma_tidy_with_child(parent.children, name, child);
    if tidy(after) {
        let own = own_entries(parent.attributes, parent.content);
        lemma_own_keys(parent.attributes, parent.content, name);
        lemma_child_merged(frame.object, own, parent.children, name, child, value);
    }
}

/// Once a child has been merged into the frame of the root, the frame
/// stands for the root with that child, if all below the root is tidy.
pub proof fn lemma_root_child_added(
    frame: FrameShape,
    root: Element,
    name: Seq<char>,
    child: Element,
    value: Shape,
)
    requires
        distinct_keys(root.children),
        tidy_children(root.children) ==> root_stands_for(frame, root),
        tidy(child) ==> same_value(value, flattened(child)),
    ensures
        tidy_children(with_child(root.children, name, child)) ==> root_stands_for(
            with_value(frame, name, value),
            Element { children: with_child(root.children, name, child), ..root },
        ),
        distinct_keys(with_child(root.children, name, child)),
{
    lemma_with_child_distinct(root.children, name, child);
    lemma_tidy_with_child(root.children, name, child);
    if tidy_children(with_child(root.children, name, child)) {
        lemma_child_merged(frame.object, Seq::empty(), root.children, name, child, value);
    }
}

/// Once character data has become the content of a frame, the frame stands
/// for the element with that content, if the element is tidy with it.
pub proof fn lemma_content_added(frame: FrameShape, element: Element, text: Seq<char>)
    requires
        tidy(element) ==> stands_for(frame, element),
    ensures
        tidy(Element { content: coerce(text), ..element }) ==> stands_for(
            with_content(frame, text),
            Element { content: coerce(text), ..element },
        ),
{
    let after = Element { content: coerce(text), ..element };
    lemma_own_content(element.attributes, element.content, text);
    if tidy(after) {
        let flat = flattened_children(element.children);
        let own = own_entries(element.attributes, element.content);
        let own_after = own_entries(element.attributes, coerce(text));
        lemma_flattened_keys(element.children, "_"@);
        lemma_put_properties(frame.object, "_"@, text_shape(text));
        lemma_put_all_properties(own, flat);
        lemma_put_all_properties(own_after, flat);
        lemma_set_all_base(properties(own), flat, "_"@, unordered(text_shape(text)));
    }
}

/// Whether the two conversions end alike: with the same failure, or with
/// values that are the same, order left aside, if all below the root of the
/// tree is tidy.
pub open spec fn ends_alike(tree: Result<Element, Failure>, direct: Result<Shape, Failure>) -> bool {
    match (tree, direct) {
        (Err(a), Err(b)) => a == b,
        (Ok(root), Ok(value)) => tidy_children(root.children) ==> same_value(
            Shape::Object(collected(root.children, Seq::empty())),
            value,
        ),
        _ => false,
    }
}

/// One event keeps the two conversions in step, or fails both alike.
pub proof fn lemma_step_in_step(
    elements: Seq<Element>,
    frames: Seq<FrameShape>,
    event: Event,
    position: usize,
)
    requires
        in_step(elements, frames),
    ensures
        match (tree_step(elements, event, position), direct_step(frames, event, position)) {
            (Err(a), Err(b)) => a == b,
            (Ok(next_elements), Ok(next_frames)) => in_step(next_elements, next_frames),
            _ => false,
        },
{
    let n = elements.len() as int;
    let top = elements[n - 1];
    let top_frame = frames[n - 1];
    match event {
        Event::Start { name, attributes } => {},
        Event::Empty { name, attributes } => {
            lemma_add_to_top(
                elements,
                frames,
                name,
                opened(name, attributes),
                childless_value(attributes),
            );
        },
        Event::Text(text) => {
            lemma_content_to_top(elements, frames, text);
        },
        Event::CData(text) => {
            lemma_content_to_top(elements, frames, text);
        },
        Event::End { name } => {
            if n >= 2 && top.name == name {
                let below = elements.drop_last();
                let frames_below = frames.drop_last();
                if tidy(top) {
                    lemma_closed_value(top_frame, top);
                }
                lemma_add_to_top(below, frames_below, name, top, closed_value(top_frame));
            }
        },
        _ => {},
    }
}

/// Merging the value of a child into the innermost open frame, and adding
/// the child to the innermost open element, keeps the conversions in step.
pub proof fn lemma_add_to_top(
    elements: Seq<Element>,
    frames: Seq<FrameShape>,
    name: Seq<char>,
    child: Element,
    value: Shape,
)
    requires
        in_step(elements, frames),
        tidy(child) ==> same_value(value, flattened(child)),
    ensures
        in_step(
            elements.drop_last().push(
                Element {
                    children: with_child(elements.last().children, name, child),
                    ..elements.last()
                },
            ),
            frames.drop_last().push(with_value(frames.last(), name, value)),
        ),
{
    let n = elements.len() as int;
    let top = elements[n - 1];
    let top_frame = frames[n - 1];
    let next_top = Element { children: with_child(top.children, name, child), ..top };
    assert(next_top.name == top.name);
    if n == 1 {
        lemma_root_child_added(top_frame, top, name, child, value);
    } else {
        lemma_child_added(top_frame, top, name, child, value);
    }
}

/// Character data keeps the conversions in step: below the top level it
/// becomes the content of the innermost open element in both; at the top
/// level only the tree keeps it, as the content of its root.
pub proof fn lemma_content_to_top(elements: Seq<Element>, frames: Seq<FrameShape>, text: Seq<char>)
    requires
        in_step(elements, frames),
    ensures
        in_step(
            elements.drop_last().push(Element { content: coerce(text), ..elements.last() }),
            if frames.len() < 2 {
                frames
            } else {
                frames.drop_last().push(with_content(frames.last(), text))
            },
        ),
{
    let n = elements.len() as int;
    let top = elements[n - 1];
    let top_frame = frames[n - 1];
    let next_top = Element { content: coerce(text), ..top };
    assert(next_top.children == top.children);
    if n >= 2 {
        lemma_content_added(top_frame, top, text);
    }
}

/// From stacks that are in step, a run of events ends alike in both conversions.
pub proof fn lemma_runs_end_alike(
    elements: Seq<Element>,
    frames: Seq<FrameShape>,
    events: Seq<(Event, usize)>,
)
    requires
        in_step(elements, frames),
    ensures
        ends_alike(tree_run(elements, events), direct_run(frames, events)),
    decreases events.len(),
{
    if events.len() > 0 {
        match events[0].0 {
            Event::Eof => {},
            Event::Failed(_) => {},
            _ => {
                lemma_step_in_step(elements, frames, events[0].0, events[0].1);
                match (
                    tree_step(elements, events[0].0, events[0].1),
                    direct_step(frames, events[0].0, events[0].1),
                ) {
                    (Ok(next_elements), Ok(next_frames)) => {
                        lemma_runs_end_alike(next_elements, next_frames, events.skip(1));
                    },
                    _ => {},
                }
            },
        }
    }
}

/// Both conversions fail on the same runs of events, with the same failure.
/// Where they succeed they give the same value, but for the order in which
/// an object holds its properties, unless some element of the document has
/// both attributes and a child named `$`, or both content and a child named
/// `_`.
pub proof fn lemma_conversions_agree(events: Seq<(Event, usize)>)
    ensures
        match (indirect_result(events), direct_result(events)) {
            (Err(a), Err(b)) => a == b,
            (Ok(a), Ok(b)) => tidy_children(tree_of_events(events)->Ok_0.children)
                ==> same_value(a, b),
            _ => false,
        },
{
    let elements = seq![root_element()];
    let frames = seq![root_frame()];
    lemma_runs_end_alike(elements, frames, events);
}

/// The two conversions of one document fail alike or give the same value,
/// as `lemma_conversions_agree` says of the events of the document.
pub proof fn lemma_documents_convert_alike(xml: Seq<char>)
    ensures
        match (indirect_result(xml_events(xml)), direct_result(xml_events(xml))) {
            (Err(a), Err(b)) => a == b,
            (Ok(a), Ok(b)) => tidy_children(tree_of_events(xml_events(xml))->Ok_0.children)
                ==> same_value(a, b),
            _ => false,
        },
{
    lemma_conversions_agree(xml_events(xml));
}

} // verus!
