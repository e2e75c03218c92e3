use vstd::prelude::*;
use crate::error::{Failure, ParseError};
use crate::events::{pairs_of, xml_events, Event, XmlEvent};
use crate::keyed::{put, put_all};
use crate::unique::{lemma_indirect_result_unique, unique_properties};
use crate::value::{
    entries_of, lemma_array_shape, lemma_object_shape, outcome, set_property, shapes_of, Shape,
    Value,
};
use crate::xml_node::{
    elements_of, lemma_array_slot, lemma_node_children, slots_of, steps_of, tree_of_events,
    ChildValue, Element, Node, Primitive, Scalar, Slot,
};

verus! {

/// The value that stands for a scalar content, if there is a content.
pub open spec fn content_shape(content: Scalar) -> Option<Shape> {
    match content {
        Scalar::Null => None,
        Scalar::Float(text) => Some(Shape::Float(text)),
        Scalar::Integer(n) => Some(Shape::Integer(n)),
        Scalar::Boolean(b) => Some(Shape::Boolean(b)),
        Scalar::Text(text) => Some(Shape::Text(text)),
    }
}

/// The properties of the object that holds a list of attributes: each name
/// set to its value in turn, so that of two attributes with one name the
/// later value stands where the name first came.
pub open spec fn attribute_entries(attributes: Seq<(Seq<char>, Seq<char>)>) -> Seq<
    (Seq<char>, Shape),
>
    decreases attributes.len(),
{
    if attributes.len() == 0 {
        Seq::empty()
    } else {
        put(
            attribute_entries(attributes.drop_last()),
            attributes.last().0,
            Shape::Text(attributes.last().1),
        )
    }
}

/// The properties that an element's object starts with: `$` with the
/// attributes if there are any, then `_` with the content if there is one.
pub open spec fn own_entries(attributes: Seq<(Seq<char>, Seq<char>)>, content: Scalar) -> Seq<
    (Seq<char>, Shape),
> {
    let first = if attributes.len() > 0 {
        seq![("$"@, Shape::Object(attribute_entries(attributes)))]
    } else {
        Seq::empty()
    };
    match content_shape(content) {
        Some(shape) => first.push(("_"@, shape)),
        None => first,
    }
}

/// The value that an element flattens to. Without attributes and children
/// it is the element's content, or the empty string where there is none.
/// Otherwise it is an object: the element's own properties, and then each
/// tag name among its children set to what those children flatten to.
pub open spec fn flattened(element: Element) -> Shape
    decreases element,
{
    if element.attributes.len() == 0 && element.children.len() == 0 {
        match content_shape(element.content) {
            Some(shape) => shape,
            None => Shape::Text(Seq::empty()),
        }
    } else {
        Shape::Object(
            put_all(
                own_entries(element.attributes, element.content),
                flattened_children(element.children),
            ),
        )
    }
}

/// The value that the children of one tag name flatten to: that of a single
/// child, or an array with that of each child in order.
pub open spec fn flattened_slot(slot: Slot) -> Shape
    decreases slot,
{
    match slot {
        Slot::Single(element) => flattened(element),
        Slot::Many(elements) => Shape::Array(flattened_all(elements)),
    }
}

/// The values that the elements of a list flatten to, in order.
pub open spec fn flattened_all(elements: Seq<Element>) -> Seq<Shape>
    decreases elements,
{
    Seq::new(
        elements.len(),
        |i: int|
            if 0 <= i < elements.len() {
                flattened(elements[i])
            } else {
                arbitrary()
            },
    )
}

/// For each tag name among `children`, in order, the value that its
/// children flatten to.
pub open spec fn flattened_children(children: Seq<(Seq<char>, Slot)>) -> Seq<(Seq<char>, Shape)>
    decreases children,
{
    Seq::new(
        children.len(),
        |i: int|
            if 0 <= i < children.len() {
                (children[i].0, flattened_slot(children[i].1))
            } else {
                arbitrary()
            },
    )
}

/// The properties of an object after the children of an element have been
/// collected into it: each tag name set to what its children flatten to.
pub open spec fn collected(children: Seq<(Seq<char>, Slot)>, object: Seq<(Seq<char>, Shape)>) -> Seq<
    (Seq<char>, Shape),
> {
    put_all(object, flattened_children(children))
}

/// The value that stands for a scalar content, if there is a content.
pub fn parse_content_as_js(content: &Primitive) -> (r: Option<Value>)
    ensures
        match r {
            Some(value) => content_shape(content@) == Some(value@),
            None => content_shape(content@) is None,
        },
{
    match content {
        Primitive::Boolean(boolean) => Some(Value::Boolean(*boolean)),
        Primitive::Integer(number) => Some(Value::Integer(*number)),
        Primitive::Float(number) => Some(Value::Float(number.clone())),
        Primitive::String(string) => Some(Value::String(string.clone())),
        Primitive::Null => None,
    }
}

/// The object that holds a list of attributes.
pub fn attributes_object(attributes: &Vec<(String, String)>) -> (object: Vec<(String, Value)>)
    ensures
        entries_of(object@) == attribute_entries(pairs_of(attributes@)),
{
    let mut object: Vec<(String, Value)> = Vec::new();
    let mut i: usize = 0;
    while i < attributes.len()
        invariant
            i <= attributes.len(),
            entries_of(object@) == attribute_entries(pairs_of(attributes@).take(i as int)),
        decreases attributes.len() - i,
    {
        let ghost next = pairs_of(attributes@).take(i + 1);
        assert(next.drop_last() =~= pairs_of(attributes@).take(i as int));
        set_property(&mut object, attributes[i].0.as_str(), Value::String(attributes[i].1.clone()));
        i = i + 1;
    }
    assert(pairs_of(attributes@).take(i as int) =~= pairs_of(attributes@));
    object
}

/// The value that `node` flattens to.
pub fn flatten_node(node: &Node) -> (value: Value)
    ensures
        value@ == flattened(node@),
    decreases node, 1int,
{
    proof {
        lemma_node_children(*node);
    }
    let content = parse_content_as_js(&node.content);
    if node.attributes.len() == 0 && node.children.len() == 0 {
        return match content {
            Some(value) => value,
            None => Value::String(String::new()),
        };
    }
    let mut js_object: Vec<(String, Value)> = Vec::new();
    if node.attributes.len() > 0 {
        let attributes = attributes_object(&node.attributes);
        proof {
            lemma_object_shape(attributes);
        }
        js_object.push(("$".to_owned(), Value::Object(attributes)));
    }
    match content {
        Some(value) => {
            let ghost before = entries_of(js_object@);
            js_object.push(("_".to_owned(), value));
            assert(entries_of(js_object@) =~= before.push(("_"@, value@)));
        },
        None => {},
    }
    assert(entries_of(js_object@) == own_entries(node@.attributes, node@.content));
    collect_children_into(&node.children, &mut js_object);
    proof {
        lemma_object_shape(js_object);
    }
    Value::Object(js_object)
}

/// The values that the nodes of a list flatten to, in order.
pub fn flatten_nodes(nodes: &Vec<Node>) -> (values: Vec<Value>)
    ensures
        shapes_of(values@) == flattened_all(elements_of(nodes@)),
    decreases nodes, 0int,
{
    let mut values: Vec<Value> = Vec::new();
    let mut j: usize = 0;
    while j < nodes.len()
        invariant
            j <= nodes.len(),
            shapes_of(values@) == flattened_all(elements_of(nodes@)).take(j as int),
        decreases nodes.len() - j,
    {
        let ghost before = shapes_of(values@);
        let value = flatten_node(&nodes[j]);
        values.push(value);
        assert(shapes_of(values@) =~= before.push(value@));
        j = j + 1;
    }
    values
}

/// Collects the children of an element into an object: each tag name is set
/// to the value of its single child, or to the array of the values of its
/// children.
pub fn collect_children_into(
    children: &Vec<(String, ChildValue)>,
    js_object: &mut Vec<(String, Value)>,
)
    ensures
        entries_of(final(js_object)@) == collected(
            slots_of(children@),
            entries_of(old(js_object)@),
        ),
    decreases children, 0int,
{
    let ghost all = flattened_children(slots_of(children@));
    let ghost start = entries_of(js_object@);
    let mut i: usize = 0;
    while i < children.len()
        invariant
            i <= children.len(),
            all == flattened_children(slots_of(children@)),
            entries_of(js_object@) == put_all(start, all.take(i as int)),
        decreases children.len() - i,
    {
        let ghost next = all.take(i + 1);
        assert(next.drop_last() =~= all.take(i as int));
        let value = match &children[i].1 {
            ChildValue::Object(node_value) => flatten_node(node_value),
            ChildValue::Array(vec_of_nodes) => {
                let js_child_values = flatten_nodes(vec_of_nodes);
                proof {
                    lemma_array_slot(*vec_of_nodes);
                    lemma_array_shape(js_child_values);
                }
                Value::Array(js_child_values)
            },
        };
        set_property(js_object, children[i].0.as_str(), value);
        i = i + 1;
    }
    assert(all.take(i as int) =~= all);
}

/// The value that a run of events converts to by way of a tree: the object
/// that the children of the root are collected into, or the failure that
/// stopped the tree from being built.
pub open spec fn indirect_result(events: Seq<(Event, usize)>) -> Result<Shape, Failure> {
    match tree_of_events(events) {
        Ok(root) => Ok(Shape::Object(collected(root.children, Seq::empty()))),
        Err(failure) => Err(failure),
    }
}

/// The object that the children of `root` are collected into.
pub fn flatten_root(root: &Node) -> (value: Value)
    ensures
        value@ == Shape::Object(collected(root@.children, Seq::empty())),
{
    let mut js_object: Vec<(String, Value)> = Vec::new();
    assert(entries_of(js_object@) =~= Seq::empty());
    collect_children_into(&root.children, &mut js_object);
    proof {
        lemma_node_children(*root);
        lemma_object_shape(js_object);
    }
    Value::Object(js_object)
}

/// Converts a list of events by building the tree first and flattening it.
/// The result is an object, and no object in it has two properties of one
/// name.
pub fn parse_events(events: Vec<(XmlEvent, usize)>) -> (r: Result<Value, ParseError>)
    ensures
        outcome(r) == indirect_result(steps_of(events@)),
        r matches Ok(value) ==> value@ is Object && unique_properties(value@),
{
    proof {
        lemma_indirect_result_unique(steps_of(events@));
    }
    match Node::from_events(events) {
        Ok(root_node) => Ok(flatten_root(&root_node)),
        Err(error) => Err(error),
    }
}

/// Converts the document `xml` by building its tree first and flattening
/// it. The result is an object with one property for each tag name at the
/// top level of the document, and no object in it has two properties of one
/// name.
pub fn parse(xml: &str) -> (r: Result<Value, ParseError>)
    ensures
        outcome(r) == indirect_result(xml_events(xml@)),
        r matches Ok(value) ==> value@ is Object && unique_properties(value@),
{
    proof {
        lemma_indirect_result_unique(xml_events(xml@));
    }
    match Node::from_str(xml) {
        Ok(root_node) => Ok(flatten_root(&root_node)),
        Err(error) => Err(error),
    }
}

} // verus!
