use vstd::prelude::*;
use crate::keyed::{first_index, has_key, lemma_first_index, lemma_first_index_is, put, value_at};
use crate::scalar::{
    boolean_of, float_check, integer_of, is_float_text, parse_boolean, parse_integer,
};
use crate::error::{ErrorKind, Failure, Fault, ParseError};
use crate::events::{clone_pairs, pairs_of, xml_events, Event, XmlEvent};
use crate::tokenizer::EventReader;
use crate::unique::{lemma_tree_has_unique_names, unique_names};
use crate::text::{chars_of, same_text};

verus! {

/// What a `Primitive` holds, every string taken as its characters.
pub enum Scalar {
    Null,
    Float(Seq<char>),
    Integer(i32),
    Boolean(bool),
    Text(Seq<char>),
}

/// The typed scalar that a piece of text stands for: a 32-bit integer where
/// it writes one, else a floating-point number where it writes one, else a
/// boolean where it is `true` or `false`, else the text itself.
pub open spec fn coerce(text: Seq<char>) -> Scalar {
    if integer_of(text) is Some {
        Scalar::Integer(integer_of(text)->0)
    } else if is_float_text(text) {
        Scalar::Float(text)
    } else if boolean_of(text) is Some {
        Scalar::Boolean(boolean_of(text)->0)
    } else {
        Scalar::Text(text)
    }
}

/// The scalar content of an element. A floating-point number is held as the
/// text that writes it.
#[derive(Debug, PartialEq)]
pub enum Primitive {
    Null,
    Float(String),
    Integer(i32),
    Boolean(bool),
    String(String),
}

impl View for Primitive {
    type V = Scalar;

    open spec fn view(&self) -> Scalar {
        match self {
            Primitive::Null => Scalar::Null,
            Primitive::Float(text) => Scalar::Float(text@),
            Primitive::Integer(n) => Scalar::Integer(*n),
            Primitive::Boolean(b) => Scalar::Boolean(*b),
            Primitive::String(text) => Scalar::Text(text@),
        }
    }
}

impl Clone for Primitive {
    /// A scalar that holds the same.
    fn clone(&self) -> (copy: Self)
        ensures
            copy@ == self@,
    {
        match self {
            Primitive::Null => Primitive::Null,
            Primitive::Float(text) => Primitive::Float(text.clone()),
            Primitive::Integer(n) => Primitive::Integer(*n),
            Primitive::Boolean(b) => Primitive::Boolean(*b),
            Primitive::String(text) => Primitive::String(text.clone()),
        }
    }
}

impl Primitive {
    /// Infers the typed scalar that `string` stands for.
    pub fn parse(string: &str) -> (r: Self)
        ensures
            r@ == coerce(string@),
    {
        let chars = chars_of(string);
        if let Some(value) = parse_integer(&chars) {
            Primitive::Integer(value)
        } else if float_check(&chars) {
            Primitive::Float(string.to_owned())
        } else if let Some(value) = parse_boolean(&chars) {
            Primitive::Boolean(value)
        } else {
            Primitive::String(string.to_owned())
        }
    }
}

/// What a `Node` holds, every string taken as its characters.
pub struct Element {
    pub name: Seq<char>,
    pub attributes: Seq<(Seq<char>, Seq<char>)>,
    pub content: Scalar,
    pub children: Seq<(Seq<char>, Slot)>,
}

/// What a `ChildValue` holds.
pub enum Slot {
    Single(Element),
    Many(Seq<Element>),
}

/// The children of an element that share one tag name: a single node, or,
/// from the second such child on, all of them in document order.
#[derive(Debug, PartialEq)]
pub enum ChildValue {
    Object(Node),
    Array(Vec<Node>),
}

/// An element of the document: its tag name, its attributes in document
/// order, its scalar content, and its children by tag name, in the order in
/// which each name first occurred.
#[derive(Debug, PartialEq)]
pub struct Node {
    pub name: String,
    pub attributes: Vec<(String, String)>,
    pub content: Primitive,
    pub children: Vec<(String, ChildValue)>,
}

/// What `node` holds.
pub open spec fn element_of(node: Node) -> Element
    decreases node,
{
    Element {
        name: node.name@,
        attributes: pairs_of(node.attributes@),
        content: node.content@,
        children: Seq::new(
            node.children.len() as nat,
            |i: int|
                if 0 <= i < node.children.len() {
                    (node.children[i].0@, slot_of(node.children[i].1))
                } else {
                    (Seq::empty(), Slot::Many(Seq::empty()))
                },
        ),
    }
}

/// What `child` holds.
pub open spec fn slot_of(child: ChildValue) -> Slot
    decreases child,
{
    match child {
        ChildValue::Object(node) => Slot::Single(element_of(node)),
        ChildValue::Array(nodes) => Slot::Many(
            Seq::new(
                nodes.len() as nat,
                |i: int|
                    if 0 <= i < nodes.len() {
                        element_of(nodes[i])
                    } else {
                        arbitrary()
                    },
            ),
        ),
    }
}

/// What each of `nodes` holds, in order.
pub open spec fn elements_of(nodes: Seq<Node>) -> Seq<Element> {
    Seq::new(nodes.len(), |i: int| element_of(nodes[i]))
}

/// What each of `children` holds, in order, under its tag name.
pub open spec fn slots_of(children: Seq<(String, ChildValue)>) -> Seq<(Seq<char>, Slot)> {
    Seq::new(children.len(), |i: int| (children[i].0@, slot_of(children[i].1)))
}

impl View for Node {
    type V = Element;

    open spec fn view(&self) -> Element {
        element_of(*self)
    }
}

impl View for ChildValue {
    type V = Slot;

    open spec fn view(&self) -> Slot {
        slot_of(*self)
    }
}

/// The children that a node holds are the slots of its `children` field.
pub proof fn lemma_node_children(node: Node)
    ensures
        element_of(node).children == slots_of(node.children@),
{
}

/// A `ChildValue::Array` holds what its nodes hold.
pub proof fn lemma_array_slot(nodes: Vec<Node>)
    ensures
        slot_of(ChildValue::Array(nodes)) == Slot::Many(elements_of(nodes@)),
{
    assert(slot_of(ChildValue::Array(nodes))->Many_0 =~= elements_of(nodes@));
}

/// Copies of the nodes of a list, in order.
fn clone_nodes(nodes: &Vec<Node>) -> (copies: Vec<Node>)
    ensures
        elements_of(copies@) == elements_of(nodes@),
    decreases nodes, 0int,
{
    let mut copies: Vec<Node> = Vec::new();
    let mut i: usize = 0;
    while i < nodes.len()
        invariant
            i <= nodes.len(),
            elements_of(copies@) == elements_of(nodes@).take(i as int),
        decreases nodes.len() - i,
    {
        let ghost before = elements_of(copies@);
        let copy = nodes[i].clone();
        copies.push(copy);
        assert(elements_of(copies@) =~= before.push(copy@));
        i = i + 1;
    }
    copies
}

/// Copies of the slots of an element, in order.
fn clone_children(children: &Vec<(String, ChildValue)>) -> (copies: Vec<(String, ChildValue)>)
    ensures
        slots_of(copies@) == slots_of(children@),
    decreases children, 0int,
{
    let mut copies: Vec<(String, ChildValue)> = Vec::new();
    let mut i: usize = 0;
    while i < children.len()
        invariant
            i <= children.len(),
            slots_of(copies@) == slots_of(children@).take(i as int),
        decreases children.len() - i,
    {
        let ghost before = slots_of(copies@);
        let copy = children[i].1.clone();
        let key = children[i].0.clone();
        copies.push((key, copy));
        assert(slots_of(copies@) =~= before.push((key@, copy@)));
        i = i + 1;
    }
    copies
}

impl Clone for ChildValue {
    /// A slot that holds the same.
    fn clone(&self) -> (copy: Self)
        ensures
            copy@ == self@,
        decreases self, 1int,
    {
        match self {
            ChildValue::Object(node) => ChildValue::Object(node.clone()),
            ChildValue::Array(nodes) => {
                let copies = clone_nodes(nodes);
                proof {
                    lemma_array_slot(*nodes);
                    lemma_array_slot(copies);
                }
                ChildValue::Array(copies)
            },
        }
    }
}

impl Clone for Node {
    /// A node that holds the same.
    fn clone(&self) -> (copy: Self)
        ensures
            copy@ == self@,
        decreases self, 1int,
    {
        let copy = Node {
            name: self.name.clone(),
            attributes: clone_pairs(&self.attributes),
            content: self.content.clone(),
            children: clone_children(&self.children),
        };
        proof {
            lemma_node_children(*self);
            lemma_node_children(copy);
        }
        copy
    }
}

/// The slot of a tag name after one more element of that name has come.
pub open spec fn grown(slot: Slot, element: Element) -> Slot {
    match slot {
        Slot::Single(first) => Slot::Many(seq![first, element]),
        Slot::Many(elements) => Slot::Many(elements.push(element)),
    }
}

/// The children of an element after `element` has come as a child named
/// `name`: alone in a new slot where the name is new, else added to the slot
/// of that name.
pub open spec fn with_child(children: Seq<(Seq<char>, Slot)>, name: Seq<char>, element: Element) -> Seq<
    (Seq<char>, Slot),
> {
    if has_key(children, name) {
        put(children, name, grown(value_at(children, name), element))
    } else {
        children.push((name, Slot::Single(element)))
    }
}

impl Node {
    /// An element named `name` with no attributes, content or children.
    pub fn new(name: String) -> (node: Self)
        ensures
            node@ == (Element {
                name: name@,
                attributes: Seq::empty(),
                content: Scalar::Null,
                children: Seq::empty(),
            }),
    {
        let node = Node {
            name,
            attributes: Vec::new(),
            content: Primitive::Null,
            children: Vec::new(),
        };
        proof {
            lemma_node_children(node);
            assert(pairs_of(node.attributes@) =~= Seq::empty());
            assert(slots_of(node.children@) =~= Seq::empty());
        }
        node
    }

    /// Records `content` as the scalar content of the element, in place of
    /// any earlier content.
    pub fn set_content(&mut self, content: &str)
        ensures
            final(self)@ == (Element { content: coerce(content@), ..old(self)@ }),
    {
        self.content = Primitive::parse(content);
    }

    /// The index of the first slot named `name`, or the number of slots if
    /// there is none.
    pub fn find_child(&self, name: &str) -> (i: usize)
        ensures
            i == first_index(self@.children, name@),
            i <= self.children.len(),
    {
        let mut i: usize = 0;
        while i < self.children.len()
            invariant
                i <= self.children.len(),
                self@.children == slots_of(self.children@),
                forall|j: int| 0 <= j < i ==> (#[trigger] slots_of(self.children@)[j]).0 != name@,
            decreases self.children.len() - i,
        {
            if same_text(self.children[i].0.as_str(), name) {
                proof {
                    lemma_first_index_is(slots_of(self.children@), name@, i as int);
                }
                return i;
            }
            i = i + 1;
        }
        proof {
            lemma_first_index_is(slots_of(self.children@), name@, i as int);
        }
        i
    }

    /// Adds `value` as a child named `name`. The first child of a name stands
    /// alone; the second makes a sequence of the two; later ones are appended.
    pub fn insert_child(&mut self, name: &str, value: Node)
        ensures
            final(self)@ == (Element {
                children: with_child(old(self)@.children, name@, value@),
                ..old(self)@
            }),
    {
        let i = self.find_child(name);
        proof {
            lemma_node_children(*self);
            lemma_first_index(slots_of(self.children@), name@);
        }
        if i < self.children.len() {
            let (key, slot) = self.children.remove(i);
            let ghost before = slot@;
            let grown_slot = match slot {
                ChildValue::Object(first) => {
                    let mut nodes: Vec<Node> = Vec::new();
                    nodes.push(first);
                    nodes.push(value);
                    proof {
                        lemma_array_slot(nodes);
                        assert(elements_of(nodes@) =~= seq![before->Single_0, value@]);
                    }
                    ChildValue::Array(nodes)
                },
                ChildValue::Array(mut nodes) => {
                    nodes.push(value);
                    proof {
                        lemma_array_slot(nodes);
                        assert(elements_of(nodes@) =~= before->Many_0.push(value@));
                    }
                    ChildValue::Array(nodes)
                },
            };
            self.children.insert(i, (key, grown_slot));
            proof {
                lemma_node_children(*self);
                assert(slots_of(self.children@) =~= with_child(
                    old(self)@.children,
                    name@,
                    value@,
                ));
            }
        } else {
            self.children.push((name.to_owned(), ChildValue::Object(value)));
            proof {
                lemma_node_children(*self);
                assert(slots_of(self.children@) =~= with_child(
                    old(self)@.children,
                    name@,
                    value@,
                ));
            }
        }
    }
}

/// An element as its opening tag leaves it: named, with its attributes, and
/// nothing else yet.
pub open spec fn opened(name: Seq<char>, attributes: Seq<(Seq<char>, Seq<char>)>) -> Element {
    Element { name, attributes, content: Scalar::Null, children: Seq::empty() }
}

/// The synthetic element that stands above the top-level elements of a document.
pub open spec fn root_element() -> Element {
    opened("root"@, Seq::empty())
}

/// The stack of open elements, the root first, after `event` has been
/// handled; or the failure that the event brings.
///
/// An opening tag pushes its element. A self-closing tag adds its element to
/// the children of the innermost open element. Character data and CDATA
/// become the content of the innermost open element, in place of any earlier
/// content. A closing tag must name the innermost open element, which then
/// leaves the stack and joins the children of the element below it; with no
/// element open it is held against the root and fails.
pub open spec fn tree_step(stack: Seq<Element>, event: Event, position: usize) -> Result<
    Seq<Element>,
    Failure,
>
    recommends
        stack.len() > 0,
{
    let top = stack.last();
    let below = stack.drop_last();
    match event {
        Event::Start { name, attributes } => Ok(stack.push(opened(name, attributes))),
        Event::Empty { name, attributes } => Ok(
            below.push(
                Element {
                    children: with_child(top.children, name, opened(name, attributes)),
                    ..top
                },
            ),
        ),
        Event::Text(text) => Ok(below.push(Element { content: coerce(text), ..top })),
        Event::CData(text) => Ok(below.push(Element { content: coerce(text), ..top })),
        Event::End { name } => if stack.len() < 2 || top.name != name {
            Err(
                Failure {
                    position,
                    fault: Fault::TagMismatch { expected: top.name, found: name },
                },
            )
        } else {
            Ok(
                below.drop_last().push(
                    Element {
                        children: with_child(below.last().children, name, top),
                        ..below.last()
                    },
                ),
            )
        },
        _ => Ok(stack),
    }
}

/// What the end of the document makes of the stack of open elements: the
/// root, unless an element is still open.
pub open spec fn tree_finish(stack: Seq<Element>, position: usize) -> Result<Element, Failure>
    recommends
        stack.len() > 0,
{
    if stack.len() > 1 {
        Err(Failure { position, fault: Fault::UnexpectedEof { open_tag: stack.last().name } })
    } else {
        Ok(stack[0])
    }
}

/// The root that a run of events builds from the stack `stack`, or the first
/// failure. The run ends at the first end-of-document event or failed event;
/// events behind it are not looked at.
pub open spec fn tree_run(stack: Seq<Element>, events: Seq<(Event, usize)>) -> Result<
    Element,
    Failure,
>
    decreases events.len(),
{
    if events.len() == 0 {
        tree_finish(stack, 0)
    } else {
        match events[0].0 {
            Event::Eof => tree_finish(stack, events[0].1),
            Event::Failed(fault) => Err(Failure { position: events[0].1, fault }),
            _ => match tree_step(stack, events[0].0, events[0].1) {
                Err(failure) => Err(failure),
                Ok(next) => tree_run(next, events.skip(1)),
            },
        }
    }
}

/// The tree that a run of events builds from the start of a document.
pub open spec fn tree_of_events(events: Seq<(Event, usize)>) -> Result<Element, Failure> {
    tree_run(seq![root_element()], events)
}

/// What a parse gave, every string taken as its characters.
pub open spec fn tree_outcome(r: Result<Node, ParseError>) -> Result<Element, Failure> {
    match r {
        Ok(node) => Ok(node@),
        Err(error) => Err(error@),
    }
}

/// The events of a list, each with its byte offset.
pub open spec fn steps_of(events: Seq<(XmlEvent, usize)>) -> Seq<(Event, usize)> {
    Seq::new(events.len(), |i: int| (events[i].0@, events[i].1))
}

/// Builds the tree of a document from its events, one at a time.
pub struct TreeBuilder {
    root: Node,
    open: Vec<Node>,
}

impl TreeBuilder {
    /// The open elements, the root first.
    pub closed spec fn view(&self) -> Seq<Element> {
        seq![self.root@] + elements_of(self.open@)
    }

    /// A builder at the start of a document: nothing is open but the root.
    pub fn new() -> (builder: Self)
        ensures
            builder@ == seq![root_element()],
    {
        let builder = TreeBuilder { root: Node::new("root".to_owned()), open: Vec::new() };
        builder
    }

    /// The stack of a builder is never empty.
    pub proof fn lemma_never_empty(&self)
        ensures
            self@.len() > 0,
    {
    }

    /// Adds `node` to the children of the innermost open element.
    fn add_child(&mut self, name: &str, node: Node)
        ensures
            final(self)@ == old(self)@.drop_last().push(
                Element {
                    children: with_child(old(self)@.last().children, name@, node@),
                    ..old(self)@.last()
                },
            ),
    {
        match self.open.pop() {
            Some(mut top) => {
                top.insert_child(name, node);
                self.open.push(top);
            },
            None => {
                self.root.insert_child(name, node);
            },
        }
    }

    /// Records `text` as the content of the innermost open element.
    fn add_content(&mut self, text: &str)
        ensures
            final(self)@ == old(self)@.drop_last().push(
                Element { content: coerce(text@), ..old(self)@.last() },
            ),
    {
        match self.open.pop() {
            Some(mut top) => {
                top.set_content(text);
                self.open.push(top);
            },
            None => {
                self.root.set_content(text);
            },
        }
    }

    /// Handles one event that is neither the end of the document nor a
    /// failure. On a failure the builder is left as it was.
    pub fn step(&mut self, event: XmlEvent, position: usize) -> (r: Result<(), ParseError>)
        ensures
            match r {
                Ok(_) => tree_step(old(self)@, event@, position) == Ok::<Seq<Element>, Failure>(
                    final(self)@,
                ),
                Err(error) => tree_step(old(self)@, event@, position) == Err::<
                    Seq<Element>,
                    Failure,
                >(error@) && final(self)@ == old(self)@,
            },
    {
        let ghost before = self@;
        match event {
            XmlEvent::Start { name, attributes } => {
                let mut node = Node::new(name);
                node.set_attributes(attributes);
                self.open.push(node);
                assert(self@ =~= before.push(opened(name@, pairs_of(attributes@))));
                Ok(())
            },
            XmlEvent::Empty { name, attributes } => {
                let mut node = Node::new(name.clone());
                node.set_attributes(attributes);
                self.add_child(name.as_str(), node);
                Ok(())
            },
            XmlEvent::Text(text) => {
                self.add_content(text.as_str());
                Ok(())
            },
            XmlEvent::CData(text) => {
                self.add_content(text.as_str());
                Ok(())
            },
            XmlEvent::End { name } => {
                let n = self.open.len();
                if n == 0 {
                    let expected = self.root.name.clone();
                    return Err(
                        ParseError {
                            position,
                            kind: ErrorKind::TagMismatch { expected, found: name },
                        },
                    );
                }
                if !same_text(self.open[n - 1].name.as_str(), name.as_str()) {
                    let expected = self.open[n - 1].name.clone();
                    return Err(
                        ParseError {
                            position,
                            kind: ErrorKind::TagMismatch { expected, found: name },
                        },
                    );
                }
                let closed = self.open.pop().unwrap();
                assert(self@ =~= before.drop_last());
                self.add_child(name.as_str(), closed);
                Ok(())
            },
            _ => Ok(()),
        }
    }

    /// Ends the document: the root with all that was built below it, unless
    /// an element is still open.
    pub fn finish(self, position: usize) -> (r: Result<Node, ParseError>)
        ensures
            tree_outcome(r) == tree_finish(self@, position),
    {
        let mut open = self.open;
        match open.pop() {
            Some(last_node) => Err(
                ParseError {
                    position,
                    kind: ErrorKind::UnexpectedEof { open_tag: last_node.name },
                },
            ),
            None => Ok(self.root),
        }
    }
}

impl Node {
    /// Gives the element its attributes, in document order.
    pub fn set_attributes(&mut self, attributes: Vec<(String, String)>)
        ensures
            final(self)@ == (Element { attributes: pairs_of(attributes@), ..old(self)@ }),
    {
        self.attributes = attributes;
    }

    /// Builds the tree that a list of events describes. No element of the
    /// tree has two slots of one tag name.
    pub fn from_events(events: Vec<(XmlEvent, usize)>) -> (r: Result<Node, ParseError>)
        ensures
            tree_outcome(r) == tree_of_events(steps_of(events@)),
            r matches Ok(root) ==> unique_names(root@),
    {
        proof {
            lemma_tree_has_unique_names(steps_of(events@));
        }
        Node::run_events(events)
    }

    /// Runs a builder over a list of events.
    fn run_events(events: Vec<(XmlEvent, usize)>) -> (r: Result<Node, ParseError>)
        ensures
            tree_outcome(r) == tree_of_events(steps_of(events@)),
    {
        let mut builder = TreeBuilder::new();
        let ghost all = steps_of(events@);
        assert(all.skip(0) =~= all);
        for step in it: events
            invariant
                all == steps_of(it.seq()),
                tree_run(builder@, all.skip(it.index())) == tree_of_events(all),
        {
            let ghost pending = all.skip(it.index());
            assert(pending.skip(1) =~= all.skip(it.index() + 1));
            let (event, position) = step;
            match event {
                XmlEvent::Eof => {
                    return builder.finish(position);
                },
                XmlEvent::Failed(kind) => {
                    return Err(ParseError { position, kind });
                },
                other => {
                    match builder.step(other, position) {
                        Err(error) => {
                            return Err(error);
                        },
                        Ok(_) => {},
                    }
                },
            }
        }
        builder.finish(0)
    }

    /// Reads the document `xml_string` into a tree. The root of the tree is
    /// the synthetic element `root`, and the top-level elements of the
    /// document are its children. No element of the tree has two slots of
    /// one tag name.
    pub fn from_str(xml_string: &str) -> (r: Result<Node, ParseError>)
        ensures
            tree_outcome(r) == tree_of_events(xml_events(xml_string@)),
            r matches Ok(root) ==> unique_names(root@),
    {
        proof {
            lemma_tree_has_unique_names(xml_events(xml_string@));
        }
        Node::run_document(xml_string)
    }

    /// Runs a builder over the events of a document.
    fn run_document(xml_string: &str) -> (r: Result<Node, ParseError>)
        ensures
            tree_outcome(r) == tree_of_events(xml_events(xml_string@)),
    {
        let mut reader = EventReader::new(xml_string);
        let mut builder = TreeBuilder::new();
        loop
            invariant
                reader.pending().len() > 0,
                tree_run(builder@, reader.pending()) == tree_of_events(xml_events(xml_string@)),
            decreases reader.pending().len(),
        {
            let (event, position) = reader.next_event();
            match event {
                XmlEvent::Eof => {
                    return builder.finish(position);
                },
                XmlEvent::Failed(kind) => {
                    return Err(ParseError { position, kind });
                },
                other => {
                    match builder.step(other, position) {
                        Err(error) => {
                            return Err(error);
                        },
                        Ok(_) => {},
                    }
                },
            }
        }
    }
}

} // verus!
