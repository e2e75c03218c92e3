use vstd::prelude::*;
use crate::events::Event;
use crate::keyed::{distinct_keys, first_index, has_key, lemma_first_index, put, put_all, value_at};
use crate::value::Shape;
use crate::xml_node::{
    opened, root_element, tree_of_events, tree_run, tree_step, with_child, Element, Scalar, Slot,
};
use crate::xml_to_js_object::{
    childless_value, closed_value, direct_result, direct_run, direct_step, merge, merged,
    root_frame, text_shape, with_attributes, FrameShape,
};
use crate::xml_to_struct_to_js_object::{
    attribute_entries, flattened, flattened_all, flattened_children, indirect_result, own_entries,
};

verus! {

/// Whether each element in `element`, itself included, has one slot for
/// each tag name among its children.
pub open spec fn unique_names(element: Element) -> bool
    decreases element,
{
    distinct_keys(element.children) && unique_children(element.children)
}

/// Whether every element among `children` has unique names.
pub open spec fn unique_children(children: Seq<(Seq<char>, Slot)>) -> bool
    decreases children,
{
    forall|i: int| 0 <= i < children.len() ==> unique_slot((#[trigger] children[i]).1)
}

/// Whether every element of `slot` has unique names.
pub open spec fn unique_slot(slot: Slot) -> bool
    decreases slot,
{
    match slot {
        Slot::Single(element) => unique_names(element),
        Slot::Many(elements) => unique_all(elements),
    }
}

/// Whether every element of `elements` has unique names.
pub open spec fn unique_all(elements: Seq<Element>) -> bool
    decreases elements,
{
    forall|j: int| 0 <= j < elements.len() ==> unique_names(#[trigger] elements[j])
}

/// Whether each object in `shape`, itself included, has one property for
/// each name.
pub open spec fn unique_properties(shape: Shape) -> bool
    decreases shape,
{
    match shape {
        Shape::Array(items) => unique_items(items),
        Shape::Object(entries) => distinct_keys(entries) && unique_entries(entries),
        _ => true,
    }
}

/// Whether every item of an array has unique properties.
pub open spec fn unique_items(items: Seq<Shape>) -> bool
    decreases items,
{
    forall|i: int| 0 <= i < items.len() ==> unique_properties(#[trigger] items[i])
}

/// Whether the value of every property has unique properties.
pub open spec fn unique_entries(entries: Seq<(Seq<char>, Shape)>) -> bool
    decreases entries,
{
    forall|i: int| 0 <= i < entries.len() ==> unique_properties((#[trigger] entries[i]).1)
}

/// Whether the properties `entries` are those of an object with unique properties.
pub open spec fn unique_object(entries: Seq<(Seq<char>, Shape)>) -> bool {
    distinct_keys(entries) && unique_entries(entries)
}

/// Adding a child to children with unique names leaves the names unique.
pub proof fn lemma_with_child_unique(
    children: Seq<(Seq<char>, Slot)>,
    name: Seq<char>,
    child: Element,
)
    requires
        distinct_keys(children),
        unique_children(children),
        unique_names(child),
    ensures
        distinct_keys(with_child(children, name, child)),
        unique_children(with_child(children, name, child)),
{
    lemma_first_index(children, name);
    assert(0 <= first_index(children, name) <= children.len());
}

/// Whether every element of a stack of open elements has unique names.
pub open spec fn unique_stack(elements: Seq<Element>) -> bool {
    forall|i: int| 0 <= i < elements.len() ==> unique_names(#[trigger] elements[i])
}

/// One event leaves the names in a stack of open elements unique.
pub proof fn lemma_tree_step_unique(elements: Seq<Element>, event: Event, position: usize)
    requires
        elements.len() > 0,
        unique_stack(elements),
    ensures
        tree_step(elements, event, position) matches Ok(next) ==> next.len() > 0 && unique_stack(
            next,
        ),
{
    let n = elements.len() as int;
    let top = elements[n - 1];
    match tree_step(elements, event, position) {
        Ok(next) => {
            match event {
                Event::Start { name, attributes } => {},
                Event::Empty { name, attributes } => {
                    lemma_with_child_unique(top.children, name, opened(name, attributes));
                },
                Event::End { name } => {
                    lemma_with_child_unique(elements[n - 2].children, name, top);
                },
                _ => {},
            }
        },
        Err(_) => {},
    }
}

/// From a stack with unique names, a run of events builds a tree with unique names.
pub proof fn lemma_tree_run_unique(elements: Seq<Element>, events: Seq<(Event, usize)>)
    requires
        elements.len() > 0,
        unique_stack(elements),
    ensures
        tree_run(elements, events) matches Ok(root) ==> unique_names(root),
    decreases events.len(),
{
    if events.len() > 0 {
        match events[0].0 {
            Event::Eof => {},
            Event::Failed(_) => {},
            _ => {
                lemma_tree_step_unique(elements, events[0].0, events[0].1);
                match tree_step(elements, events[0].0, events[0].1) {
                    Ok(next) => {
                        lemma_tree_run_unique(next, events.skip(1));
                    },
                    Err(_) => {},
                }
            },
        }
    }
}

/// In the tree of a document every element has one slot for each tag name
/// among its children.
pub proof fn lemma_tree_has_unique_names(events: Seq<(Event, usize)>)
    ensures
        tree_of_events(events) matches Ok(root) ==> unique_names(root),
{
    let elements = seq![root_element()];
    lemma_tree_run_unique(elements, events);
}

/// Setting a property to a value with unique properties leaves the
/// properties of the object unique.
pub proof fn lemma_put_unique(entries: Seq<(Seq<char>, Shape)>, key: Seq<char>, value: Shape)
    requires
        unique_object(entries),
        unique_properties(value),
    ensures
        unique_object(put(entries, key, value)),
{
    lemma_first_index(entries, key);
}

/// Setting properties one after the other leaves the properties unique.
pub proof fn lemma_put_all_unique(entries: Seq<(Seq<char>, Shape)>, extra: Seq<(Seq<char>, Shape)>)
    requires
        unique_object(entries),
        unique_entries(extra),
    ensures
        unique_object(put_all(entries, extra)),
    decreases extra.len(),
{
    if extra.len() > 0 {
        let front = extra.drop_last();
        lemma_put_all_unique(entries, front);
        lemma_put_unique(put_all(entries, front), extra.last().0, extra.last().1);
    }
}

/// Merging a value with unique properties into an object leaves the
/// properties of the object unique.
pub proof fn lemma_merge_unique(entries: Seq<(Seq<char>, Shape)>, key: Seq<char>, value: Shape)
    requires
        unique_object(entries),
        unique_properties(value),
    ensures
        unique_object(merge(entries, key, value)),
{
    lemma_first_index(entries, key);
    if has_key(entries, key) {
        let previous = value_at(entries, key);
        assert(unique_properties(entries[first_index(entries, key)].1));
        lemma_put_unique(entries, key, merged(previous, value));
    }
}

/// The object that holds a list of attributes has one property for each name.
pub proof fn lemma_attributes_unique(attributes: Seq<(Seq<char>, Seq<char>)>)
    ensures
        unique_object(attribute_entries(attributes)),
    decreases attributes.len(),
{
    if attributes.len() > 0 {
        lemma_attributes_unique(attributes.drop_last());
        lemma_put_unique(
            attribute_entries(attributes.drop_last()),
            attributes.last().0,
            Shape::Text(attributes.last().1),
        );
    }
}

/// The own properties of an element are unique.
pub proof fn lemma_own_unique(attributes: Seq<(Seq<char>, Seq<char>)>, content: Scalar)
    ensures
        unique_object(own_entries(attributes, content)),
        unique_object(with_attributes(Seq::empty(), attributes)),
        unique_properties(childless_value(attributes)),
{
    reveal_strlit("$");
    reveal_strlit("_");
    assert("$"@[0] != "_"@[0]);
    lemma_attributes_unique(attributes);
}

/// An element with unique names flattens to a value with unique properties.
pub proof fn lemma_flattened_unique(element: Element)
    requires
        unique_names(element),
    ensures
        unique_properties(flattened(element)),
        unique_entries(flattened_children(element.children)),
    decreases element,
{
    let flat = flattened_children(element.children);
    assert forall|i: int| 0 <= i < flat.len() implies unique_properties((#[trigger] flat[i]).1) by {
        assert(unique_slot(element.children[i].1));
        match element.children[i].1 {
            Slot::Single(child) => {
                lemma_flattened_unique(child);
            },
            Slot::Many(all) => {
                let items = flattened_all(all);
                assert forall|j: int| 0 <= j < items.len() implies unique_properties(
                    #[trigger] items[j],
                ) by {
                    lemma_flattened_unique(all[j]);
                }
            },
        }
    }
    lemma_own_unique(element.attributes, element.content);
    lemma_put_all_unique(own_entries(element.attributes, element.content), flat);
}

/// Converting by way of a tree gives a value in which every object has one
/// property for each name.
pub proof fn lemma_indirect_result_unique(events: Seq<(Event, usize)>)
    ensures
        indirect_result(events) matches Ok(value) ==> value is Object && unique_properties(value),
{
    lemma_tree_has_unique_names(events);
    match tree_of_events(events) {
        Ok(root) => {
            lemma_flattened_unique(root);
            let empty = Seq::<(Seq<char>, Shape)>::empty();
            lemma_put_all_unique(empty, flattened_children(root.children));
        },
        Err(_) => {},
    }
}

/// Whether the object of every frame of a stack has unique properties.
pub open spec fn unique_frames(frames: Seq<FrameShape>) -> bool {
    forall|i: int| 0 <= i < frames.len() ==> unique_object((#[trigger] frames[i]).object)
}

/// The value of an element at its closing tag has unique properties.
pub proof fn lemma_closed_value_unique(frame: FrameShape)
    requires
        unique_object(frame.object),
    ensures
        unique_properties(closed_value(frame)),
{
    lemma_first_index(frame.object, "_"@);
}

/// One event leaves the properties in a stack of open frames unique.
pub proof fn lemma_direct_step_unique(frames: Seq<FrameShape>, event: Event, position: usize)
    requires
        frames.len() > 0,
        unique_frames(frames),
    ensures
        direct_step(frames, event, position) matches Ok(next) ==> next.len() > 0
            && unique_frames(next),
{
    let n = frames.len() as int;
    let top = frames[n - 1];
    match direct_step(frames, event, position) {
        Ok(next) => {
            match event {
                Event::Start { name, attributes } => {
                    lemma_own_unique(attributes, Scalar::Null);
                },
                Event::Empty { name, attributes } => {
                    lemma_own_unique(attributes, Scalar::Null);
                    lemma_merge_unique(top.object, name, childless_value(attributes));
                },
                Event::Text(text) => {
                    lemma_put_unique(top.object, "_"@, text_shape(text));
                },
                Event::CData(text) => {
                    lemma_put_unique(top.object, "_"@, text_shape(text));
                },
                Event::End { name } => {
                    lemma_closed_value_unique(top);
                    lemma_merge_unique(frames[n - 2].object, name, closed_value(top));
                },
                _ => {},
            }
        },
        Err(_) => {},
    }
}

/// From a stack with unique properties, a run of events gives a value with
/// unique properties.
pub proof fn lemma_direct_run_unique(frames: Seq<FrameShape>, events: Seq<(Event, usize)>)
    requires
        frames.len() > 0,
        unique_frames(frames),
    ensures
        direct_run(frames, events) matches Ok(value) ==> value is Object && unique_properties(
            value,
        ),
    decreases events.len(),
{
    if events.len() > 0 {
        match events[0].0 {
            Event::Eof => {},
            Event::Failed(_) => {},
            _ => {
                lemma_direct_step_unique(frames, events[0].0, events[0].1);
                match direct_step(frames, events[0].0, events[0].1) {
                    Ok(next) => {
                        lemma_direct_run_unique(next, events.skip(1));
                    },
                    Err(_) => {},
                }
            },
        }
    }
}

/// Converting directly gives a value in which every object has one
/// property for each name.
pub proof fn lemma_direct_result_unique(events: Seq<(Event, usize)>)
    ensures
        direct_result(events) matches Ok(value) ==> value is Object && unique_properties(value),
{
    let frames = seq![root_frame()];
    lemma_direct_run_unique(frames, events);
}

} // verus!
