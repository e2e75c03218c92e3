use vstd::prelude::*;
use crate::error::{ErrorKind, Failure, Fault, ParseError};
use crate::events::{pairs_of, xml_events, Event, XmlEvent};
use crate::keyed::{has_key, lemma_first_index, put, value_at};
use crate::text::same_text;
use crate::tokenizer::EventReader;
use crate::unique::{lemma_direct_result_unique, unique_properties};
use crate::value::{
    entries_of, find_key, lemma_array_shape, lemma_object_shape, outcome, set_property, shapes_of,
    Shape, Value,
};
use crate::xml_node::{coerce, steps_of, Primitive};
use crate::xml_to_struct_to_js_object::{
    attribute_entries, attributes_object, content_shape, parse_content_as_js,
};

verus! {

/// What stands under a key once `new` has been merged into `previous`: an
/// array grows by one item, anything else becomes the first of two items.
pub open spec fn merged(previous: Shape, new: Shape) -> Shape {
    match previous {
        Shape::Array(items) => Shape::Array(items.push(new)),
        _ => Shape::Array(seq![previous, new]),
    }
}

/// The properties of an object after `value` has been merged in under `key`:
/// stored as it is where the key is new, merged with what stands there where
/// it is not.
pub open spec fn merge(entries: Seq<(Seq<char>, Shape)>, key: Seq<char>, value: Shape) -> Seq<
    (Seq<char>, Shape),
> {
    if has_key(entries, key) {
        put(entries, key, merged(value_at(entries, key), value))
    } else {
        entries.push((key, value))
    }
}

/// Merges `js_value` into an object as a child named `key`. A first value
/// under the key is stored as it is; a second makes an array of the two; a
/// later one is appended to that array.
pub fn insert_value_into_js_object(key: &str, js_value: Value, js_object: &mut Vec<(String, Value)>)
    ensures
        entries_of(final(js_object)@) == merge(entries_of(old(js_object)@), key@, js_value@),
{
    let i = find_key(js_object, key);
    proof {
        lemma_first_index(entries_of(js_object@), key@);
    }
    if i < js_object.len() {
        let (name, previous) = js_object.remove(i);
        let ghost before = previous@;
        let combined = match previous {
            Value::Array(mut items) => {
                items.push(js_value);
                proof {
                    lemma_array_shape(items);
                    assert(shapes_of(items@) =~= before->Array_0.push(js_value@));
                }
                Value::Array(items)
            },
            other => {
                let mut items: Vec<Value> = Vec::new();
                items.push(other);
                items.push(js_value);
                proof {
                    lemma_array_shape(items);
                    assert(shapes_of(items@) =~= seq![before, js_value@]);
                }
                Value::Array(items)
            },
        };
        js_object.insert(i, (name, combined));
    } else {
        js_object.push((key.to_owned(), js_value));
    }
}

/// What has been seen of an open element so far.
#[derive(Debug, Clone, Copy, PartialEq, Eq, Structural)]
pub struct NodeFlags {
    pub has_attributes: bool,
    pub has_content: bool,
    pub has_children: bool,
}

impl NodeFlags {
    /// Nothing seen yet.
    pub fn new() -> (flags: Self)
        ensures
            flags == (NodeFlags { has_attributes: false, has_content: false, has_children: false }),
    {
        NodeFlags { has_attributes: false, has_content: false, has_children: false }
    }

    /// Whether the element has neither attributes, content nor children.
    pub open spec fn spec_is_empty(&self) -> bool {
        !self.has_attributes && !self.has_content && !self.has_children
    }

    /// Whether the element has neither attributes nor children.
    pub open spec fn spec_is_just_content(&self) -> bool {
        !self.has_attributes && !self.has_children
    }

    /// Whether the element has neither attributes, content nor children.
    #[verifier::when_used_as_spec(spec_is_empty)]
    pub fn is_empty(&self) -> (r: bool)
        ensures
            r == self.spec_is_empty(),
    {
        !self.has_attributes && !self.has_content && !self.has_children
    }

    /// Whether the element has neither attributes nor children.
    #[verifier::when_used_as_spec(spec_is_just_content)]
    pub fn is_just_content(&self) -> (r: bool)
        ensures
            r == self.spec_is_just_content(),
    {
        !self.has_attributes && !self.has_children
    }
}

/// What a `Frame` holds, every string taken as its characters.
pub struct FrameShape {
    pub name: Seq<char>,
    pub object: Seq<(Seq<char>, Shape)>,
    pub flags: NodeFlags,
}

/// An open element of the direct conversion: its tag name, the object built
/// for it so far, and what has been seen of it.
pub struct Frame {
    pub name: String,
    pub js_object: Vec<(String, Value)>,
    pub flags: NodeFlags,
}

impl View for Frame {
    type V = FrameShape;

    open spec fn view(&self) -> FrameShape {
        FrameShape { name: self.name@, object: entries_of(self.js_object@), flags: self.flags }
    }
}

/// What each of `frames` holds, in order.
pub open spec fn frames_of(frames: Seq<Frame>) -> Seq<FrameShape> {
    Seq::new(frames.len(), |i: int| frames[i]@)
}

/// The object of an element after its attributes have been set into it:
/// with one attribute or more they stand together under `$`.
pub open spec fn with_attributes(
    object: Seq<(Seq<char>, Shape)>,
    attributes: Seq<(Seq<char>, Seq<char>)>,
) -> Seq<(Seq<char>, Shape)> {
    if attributes.len() > 0 {
        put(object, "$"@, Shape::Object(attribute_entries(attributes)))
    } else {
        object
    }
}

/// The frame that an opening tag pushes.
pub open spec fn started(name: Seq<char>, attributes: Seq<(Seq<char>, Seq<char>)>) -> FrameShape {
    FrameShape {
        name,
        object: with_attributes(Seq::empty(), attributes),
        flags: NodeFlags {
            has_attributes: attributes.len() > 0,
            has_content: false,
            has_children: false,
        },
    }
}

/// The value of a self-closing element: an object with its attributes under
/// `$`, or the empty string where it has none.
pub open spec fn childless_value(attributes: Seq<(Seq<char>, Seq<char>)>) -> Shape {
    if attributes.len() > 0 {
        Shape::Object(with_attributes(Seq::empty(), attributes))
    } else {
        Shape::Text(Seq::empty())
    }
}

/// The value that a piece of character data stands for.
pub open spec fn text_shape(text: Seq<char>) -> Shape {
    match content_shape(coerce(text)) {
        Some(shape) => shape,
        None => Shape::Text(Seq::empty()),
    }
}

/// The value of an element when its closing tag comes: the empty string
/// where nothing was seen of it; its content alone where it has neither
/// attributes nor children; else the object as built.
pub open spec fn closed_value(frame: FrameShape) -> Shape {
    if frame.flags.spec_is_empty() {
        Shape::Text(Seq::empty())
    } else if frame.flags.spec_is_just_content() {
        if has_key(frame.object, "_"@) {
            value_at(frame.object, "_"@)
        } else {
            Shape::Text(Seq::empty())
        }
    } else {
        Shape::Object(frame.object)
    }
}

/// A frame after `value` has been merged in as a child named `name`.
pub open spec fn with_value(frame: FrameShape, name: Seq<char>, value: Shape) -> FrameShape {
    FrameShape {
        object: merge(frame.object, name, value),
        flags: NodeFlags { has_children: true, ..frame.flags },
        ..frame
    }
}

/// A frame after `text` has become its content, under `_`.
pub open spec fn with_content(frame: FrameShape, text: Seq<char>) -> FrameShape {
    FrameShape {
        object: put(frame.object, "_"@, text_shape(text)),
        flags: NodeFlags { has_content: true, ..frame.flags },
        ..frame
    }
}

/// The frame of the synthetic root that stands above the top-level elements.
pub open spec fn root_frame() -> FrameShape {
    started("root"@, Seq::empty())
}

/// The stack of open frames, the root first, after `event` has been handled;
/// or the failure that the event brings.
///
/// An opening tag pushes a frame. A self-closing tag merges its value into
/// the innermost open frame. Character data and CDATA become the content of
/// the innermost open element, in place of any earlier content; at the top
/// level, where no element is open, they leave no trace. A closing tag must
/// name the innermost open element, whose value is then merged into the
/// frame below; with no element open it is held against the root and fails.
pub open spec fn direct_step(stack: Seq<FrameShape>, event: Event, position: usize) -> Result<
    Seq<FrameShape>,
    Failure,
>
    recommends
        stack.len() > 0,
{
    let top = stack.last();
    let below = stack.drop_last();
    match event {
        Event::Start { name, attributes } => Ok(stack.push(started(name, attributes))),
        Event::Empty { name, attributes } => Ok(
            below.push(with_value(top, name, childless_value(attributes))),
        ),
        Event::Text(text) => if stack.len() < 2 {
            Ok(stack)
        } else {
            Ok(below.push(with_content(top, text)))
        },
        Event::CData(text) => if stack.len() < 2 {
            Ok(stack)
        } else {
            Ok(below.push(with_content(top, text)))
        },
        Event::End { name } => if stack.len() < 2 || top.name != name {
            Err(
                Failure {
                    position,
                    fault: Fault::TagMismatch { expected: top.name, found: name },
                },
            )
        } else {
            Ok(below.drop_last().push(with_value(below.last(), name, closed_value(top))))
        },
        _ => Ok(stack),
    }
}

/// What the end of the document makes of the stack of open frames: the
/// object of the root, unless an element is still open.
pub open spec fn direct_finish(stack: Seq<FrameShape>, position: usize) -> Result<Shape, Failure>
    recommends
        stack.len() > 0,
{
    if stack.len() > 1 {
        Err(Failure { position, fault: Fault::UnexpectedEof { open_tag: stack.last().name } })
    } else {
        Ok(Shape::Object(stack[0].object))
    }
}

/// The value that a run of events builds from the stack `stack`, or the
/// first failure. The run ends at the first end-of-document event or failed
/// event; events behind it are not looked at.
pub open spec fn direct_run(stack: Seq<FrameShape>, events: Seq<(Event, usize)>) -> Result<
    Shape,
    Failure,
>
    decreases events.len(),
{
    if events.len() == 0 {
        direct_finish(stack, 0)
    } else {
        match events[0].0 {
            Event::Eof => direct_finish(stack, events[0].1),
            Event::Failed(fault) => Err(Failure { position: events[0].1, fault }),
            _ => match direct_step(stack, events[0].0, events[0].1) {
                Err(failure) => Err(failure),
                Ok(next) => direct_run(next, events.skip(1)),
            },
        }
    }
}

/// The value that a run of events converts to directly, from the start of a
/// document.
pub open spec fn direct_result(events: Seq<(Event, usize)>) -> Result<Shape, Failure> {
    direct_run(seq![root_frame()], events)
}

/// Sets the attributes of an element into its object, together under `$`,
/// and says whether there was any.
pub fn set_attributes_into_js_object(
    attributes: &Vec<(String, String)>,
    js_object: &mut Vec<(String, Value)>,
) -> (was_set: bool)
    ensures
        was_set == (attributes.len() > 0),
        entries_of(final(js_object)@) == with_attributes(
            entries_of(old(js_object)@),
            pairs_of(attributes@),
        ),
{
    if attributes.len() > 0 {
        let attributes_js_object = attributes_object(attributes);
        proof {
            lemma_object_shape(attributes_js_object);
        }
        set_property(js_object, "$", Value::Object(attributes_js_object));
        return true;
    }
    false
}

/// The value that a piece of character data stands for.
pub fn text_value(text: &str) -> (value: Value)
    ensures
        value@ == text_shape(text@),
{
    match parse_content_as_js(&Primitive::parse(text)) {
        Some(value) => value,
        None => Value::String(String::new()),
    }
}

/// The value of a self-closing element with the attributes `attributes`.
pub fn value_of_childless(attributes: &Vec<(String, String)>) -> (value: Value)
    ensures
        value@ == childless_value(pairs_of(attributes@)),
{
    let mut current_js_object: Vec<(String, Value)> = Vec::new();
    assert(entries_of(current_js_object@) =~= Seq::empty());
    let was_set = set_attributes_into_js_object(attributes, &mut current_js_object);
    if was_set {
        proof {
            lemma_object_shape(current_js_object);
        }
        Value::Object(current_js_object)
    } else {
        Value::String(String::new())
    }
}

/// The value of an element whose closing tag has come.
pub fn value_of_closed(frame: Frame) -> (value: Value)
    ensures
        value@ == closed_value(frame@),
{
    let Frame { name: _, js_object: mut removed_js_object, flags: removed_node_flags } = frame;
    if removed_node_flags.is_empty() {
        Value::String(String::new())
    } else if removed_node_flags.is_just_content() {
        let i = find_key(&removed_js_object, "_");
        if i < removed_js_object.len() {
            let (_, content_as_js_value) = removed_js_object.remove(i);
            content_as_js_value
        } else {
            Value::String(String::new())
        }
    } else {
        proof {
            lemma_object_shape(removed_js_object);
        }
        Value::Object(removed_js_object)
    }
}

/// Converts a document from its events, one at a time, without a tree.
pub struct DirectBuilder {
    root: Frame,
    open: Vec<Frame>,
}

impl DirectBuilder {
    /// The open frames, the root first.
    pub closed spec fn view(&self) -> Seq<FrameShape> {
        seq![self.root@] + frames_of(self.open@)
    }

    /// A builder at the start of a document: nothing is open but the root.
    pub fn new() -> (builder: Self)
        ensures
            builder@ == seq![root_frame()],
    {
        let builder = DirectBuilder {
            root: Frame { name: "root".to_owned(), js_object: Vec::new(), flags: NodeFlags::new() },
            open: Vec::new(),
        };
        assert(entries_of(builder.root.js_object@) =~= Seq::empty());
        builder
    }

    /// The stack of a builder is never empty.
    pub proof fn lemma_never_empty(&self)
        ensures
            self@.len() > 0,
    {
    }

    /// Merges `value` into the innermost open frame as a child named `name`.
    fn add_value(&mut self, name: &str, value: Value)
        ensures
            final(self)@ == old(self)@.drop_last().push(
                with_value(old(self)@.last(), name@, value@),
            ),
    {
        match self.open.pop() {
            Some(mut top) => {
                top.flags.has_children = true;
                insert_value_into_js_object(name, value, &mut top.js_object);
                self.open.push(top);
            },
            None => {
                self.root.flags.has_children = true;
                insert_value_into_js_object(name, value, &mut self.root.js_object);
            },
        }
    }

    /// Handles one event that is neither the end of the document nor a
    /// failure. On a failure the builder is left as it was.
    pub fn step(&mut self, event: XmlEvent, position: usize) -> (r: Result<(), ParseError>)
        ensures
            match r {
                Ok(_) => direct_step(old(self)@, event@, position) == Ok::<
                    Seq<FrameShape>,
                    Failure,
                >(final(self)@),
                Err(error) => direct_step(old(self)@, event@, position) == Err::<
                    Seq<FrameShape>,
                    Failure,
                >(error@) && final(self)@ == old(self)@,
            },
    {
        let ghost before = self@;
        match event {
            XmlEvent::Start { name, attributes } => {
                let mut current_js_object: Vec<(String, Value)> = Vec::new();
                assert(entries_of(current_js_object@) =~= Seq::empty());
                let was_set = set_attributes_into_js_object(&attributes, &mut current_js_object);
                let mut current_node_flags = NodeFlags::new();
                current_node_flags.has_attributes = was_set;
                self.open.push(
                    Frame { name, js_object: current_js_object, flags: current_node_flags },
                );
                assert(self@ =~= before.push(started(name@, pairs_of(attributes@))));
                Ok(())
            },
            XmlEvent::Empty { name, attributes } => {
                let value = value_of_childless(&attributes);
                self.add_value(name.as_str(), value);
                Ok(())
            },
            XmlEvent::Text(text) => {
                self.add_content(text.as_str());
                Ok(())
            },
            XmlEvent::CData(text) => {
                self.add_content(text.as_str());
                Ok(())
            },
            XmlEvent::End { name } => {
                let n = self.open.len();
                if n == 0 {
                    let expected = self.root.name.clone();
                    return Err(
                        ParseError {
                            position,
                            kind: ErrorKind::TagMismatch { expected, found: name },
                        },
                    );
                }
                if !same_text(self.open[n - 1].name.as_str(), name.as_str()) {
                    let expected = self.open[n - 1].name.clone();
                    return Err(
                        ParseError {
                            position,
                            kind: ErrorKind::TagMismatch { expected, found: name },
                        },
                    );
                }
                let removed = self.open.pop().unwrap();
                assert(self@ =~= before.drop_last());
                let value = value_of_closed(removed);
                self.add_value(name.as_str(), value);
                Ok(())
            },
            _ => Ok(()),
        }
    }

    /// Records `text` as the content of the innermost open element, if one
    /// is open.
    fn add_content(&mut self, text: &str)
        ensures
            old(self)@.len() < 2 ==> final(self)@ == old(self)@,
            old(self)@.len() >= 2 ==> final(self)@ == old(self)@.drop_last().push(
                with_content(old(self)@.last(), text@),
            ),
    {
        match self.open.pop() {
            Some(mut top) => {
                top.flags.has_content = true;
                set_property(&mut top.js_object, "_", text_value(text));
                self.open.push(top);
            },
            None => {
            },
        }
    }

    /// Ends the document: the object of the root, unless an element is still
    /// open.
    pub fn finish(self, position: usize) -> (r: Result<Value, ParseError>)
        ensures
            outcome(r) == direct_finish(self@, position),
    {
        let mut open = self.open;
        match open.pop() {
            Some(last) => Err(
                ParseError { position, kind: ErrorKind::UnexpectedEof { open_tag: last.name } },
            ),
            None => {
                proof {
                    lemma_object_shape(self.root.js_object);
                }
                Ok(Value::Object(self.root.js_object))
            },
        }
    }
}

/// Runs a builder over a list of events.
fn run_events(events: Vec<(XmlEvent, usize)>) -> (r: Result<Value, ParseError>)
    ensures
        outcome(r) == direct_result(steps_of(events@)),
{
    let mut builder = DirectBuilder::new();
    let ghost all = steps_of(events@);
    assert(all.skip(0) =~= all);
    for step in it: events
        invariant
            all == steps_of(it.seq()),
            direct_run(builder@, all.skip(it.index())) == direct_result(all),
    {
        let ghost pending = all.skip(it.index());
        assert(pending.skip(1) =~= all.skip(it.index() + 1));
        let (event, position) = step;
        match event {
            XmlEvent::Eof => {
                return builder.finish(position);
            },
            XmlEvent::Failed(kind) => {
                return Err(ParseError { position, kind });
            },
            other => {
                match builder.step(other, position) {
                    Err(error) => {
                        return Err(error);
                    },
                    Ok(_) => {},
                }
            },
        }
    }
    builder.finish(0)
}

/// Converts a list of events directly. The result is an object, and no
/// object in it has two properties of one name.
pub fn parse_events(events: Vec<(XmlEvent, usize)>) -> (r: Result<Value, ParseError>)
    ensures
        outcome(r) == direct_result(steps_of(events@)),
        r matches Ok(value) ==> value@ is Object && unique_properties(value@),
{
    proof {
        lemma_direct_result_unique(steps_of(events@));
    }
    run_events(events)
}

/// Converts the document `xml` directly, in one pass over its events. The
/// result is an object with one property for each tag name at the top level
/// of the document, and no object in it has two properties of one name.
pub fn parse(xml: &str) -> (r: Result<Value, ParseError>)
    ensures
        outcome(r) == direct_result(xml_events(xml@)),
        r matches Ok(value) ==> value@ is Object && unique_properties(value@),
{
    proof {
        lemma_direct_result_unique(xml_events(xml@));
    }
    run_document(xml)
}

/// Runs a builder over the events of a document.
fn run_document(xml: &str) -> (r: Result<Value, ParseError>)
    ensures
        outcome(r) == direct_result(xml_events(xml@)),
{
    let mut reader = EventReader::new(xml);
    let mut builder = DirectBuilder::new();
    loop
        invariant
            reader.pending().len() > 0,
            direct_run(builder@, reader.pending()) == direct_result(xml_events(xml@)),
        decreases reader.pending().len(),
    {
        let (event, position) = reader.next_event();
        match event {
            XmlEvent::Eof => {
                return builder.finish(position);
            },
            XmlEvent::Failed(kind) => {
                return Err(ParseError { position, kind });
            },
            other => {
                match builder.step(other, position) {
                    Err(error) => {
                        return Err(error);
                    },
                    Ok(_) => {},
                }
            },
        }
    }
}

} // verus!
