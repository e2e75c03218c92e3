use xml_to_tree::error::{ErrorKind, ParseError};
use xml_to_tree::events::{decode_attributes, decode_event, XmlEvent};
use xml_to_tree::tokenizer::{EventReader, RawEvent};
use xml_to_tree::value::{find_key, set_property, Value};
use xml_to_tree::xml_node::{ChildValue, Node, Primitive, TreeBuilder};
use xml_to_tree::xml_to_js_object::{
    insert_value_into_js_object, set_attributes_into_js_object, text_value, value_of_childless,
    value_of_closed, DirectBuilder, Frame, NodeFlags,
};
use xml_to_tree::xml_to_struct_to_js_object::{
    attributes_object, collect_children_into, flatten_node, flatten_nodes, flatten_root,
    parse_content_as_js,
};

fn string(s: &str) -> Value {
    Value::String(s.to_string())
}

fn object(entries: Vec<(&str, Value)>) -> Value {
    Value::Object(entries.into_iter().map(|(k, v)| (k.to_string(), v)).collect())
}

fn pairs(entries: Vec<(&str, &str)>) -> Vec<(String, String)> {
    entries.into_iter().map(|(k, v)| (k.to_string(), v.to_string())).collect()
}

fn start(name: &str, attributes: Vec<(&str, &str)>) -> XmlEvent {
    XmlEvent::Start { name: name.to_string(), attributes: pairs(attributes) }
}

fn empty(name: &str, attributes: Vec<(&str, &str)>) -> XmlEvent {
    XmlEvent::Empty { name: name.to_string(), attributes: pairs(attributes) }
}

fn end(name: &str) -> XmlEvent {
    XmlEvent::End { name: name.to_string() }
}

fn text(content: &str) -> XmlEvent {
    XmlEvent::Text(content.to_string())
}

fn numbered(events: Vec<XmlEvent>) -> Vec<(XmlEvent, usize)> {
    events.into_iter().enumerate().map(|(i, e)| (e, 10 * (i + 1))).collect()
}

fn leaf(name: &str, content: Primitive) -> Node {
    Node { name: name.to_string(), attributes: vec![], content, children: vec![] }
}

#[test]
fn reader_delivers_decoded_events() {
    let mut reader = EventReader::new("<?xml version='1.0'?><r k=\"a&amp;b\"> x &lt; y <e/></r>");
    assert_eq!(reader.next_event(), (XmlEvent::Skipped, 21));
    assert_eq!(reader.next_event(), (start("r", vec![("k", "a&b")]), 36));
    assert_eq!(reader.next_event(), (text("x < y"), 46));
    assert_eq!(reader.next_event(), (empty("e", vec![]), 50));
    assert_eq!(reader.next_event(), (end("r"), 54));
    assert_eq!(reader.next_event(), (XmlEvent::Eof, 54));
    assert_eq!(reader.next_event(), (XmlEvent::Eof, 54));
}

#[test]
fn reader_stops_at_a_failure() {
    let mut reader = EventReader::new("<a></b><c/>");
    assert_eq!(reader.next_event(), (start("a", vec![]), 3));
    assert_eq!(
        reader.next_event(),
        (
            XmlEvent::Failed(ErrorKind::TagMismatch {
                expected: "a".to_string(),
                found: "b".to_string()
            }),
            5
        )
    );
    assert_eq!(reader.next_event().0, XmlEvent::Eof);
}

#[test]
fn reader_decodes_cdata() {
    let mut reader = EventReader::new("<a><![CDATA[ 1 < 2 ]]></a>");
    assert_eq!(reader.next_event().0, start("a", vec![]));
    assert_eq!(reader.next_event().0, XmlEvent::CData(" 1 < 2 ".to_string()));
    assert_eq!(reader.next_event().0, end("a"));
}

#[test]
fn raw_events_are_decoded() {
    let reader = EventReader::new("");
    assert_eq!(
        decode_event(&reader, RawEvent::Opened(b"a".to_vec(), b"a k='&gt;'".to_vec())),
        start("a", vec![("k", ">")])
    );
    assert_eq!(
        decode_event(&reader, RawEvent::Childless(b"b".to_vec(), b"b".to_vec())),
        empty("b", vec![])
    );
    assert_eq!(decode_event(&reader, RawEvent::Closed(b"a".to_vec())), end("a"));
    assert_eq!(decode_event(&reader, RawEvent::Chars(b"&amp;".to_vec())), text("&"));
    assert_eq!(
        decode_event(&reader, RawEvent::Verbatim(b"&lt;x".to_vec())),
        XmlEvent::CData("<x".to_string())
    );
    assert_eq!(decode_event(&reader, RawEvent::Finished), XmlEvent::Eof);
    assert_eq!(decode_event(&reader, RawEvent::Skipped), XmlEvent::Skipped);
    assert_eq!(
        decode_event(&reader, RawEvent::Mismatched("a".to_string(), "b".to_string())),
        XmlEvent::Failed(ErrorKind::TagMismatch {
            expected: "a".to_string(),
            found: "b".to_string()
        })
    );
    assert_eq!(
        decode_event(&reader, RawEvent::Broken("why".to_string())),
        XmlEvent::Failed(ErrorKind::Syntax("why".to_string()))
    );
}

#[test]
fn names_that_are_not_utf8_are_an_encoding_failure() {
    let reader = EventReader::new("");
    assert_eq!(
        decode_event(&reader, RawEvent::Opened(vec![0xff], vec![0xff])),
        XmlEvent::Failed(ErrorKind::Encoding)
    );
    assert_eq!(
        decode_event(&reader, RawEvent::Childless(vec![0xc3], vec![0xc3])),
        XmlEvent::Failed(ErrorKind::Encoding)
    );
    assert_eq!(
        decode_event(&reader, RawEvent::Closed(vec![b'a', 0x80])),
        XmlEvent::Failed(ErrorKind::Encoding)
    );
}

#[test]
fn cdata_that_cannot_be_unescaped_is_taken_as_written() {
    let reader = EventReader::new("");
    assert_eq!(
        decode_event(&reader, RawEvent::Verbatim(b"&bogus;".to_vec())),
        XmlEvent::CData("&bogus;".to_string())
    );
    assert_eq!(
        decode_event(&reader, RawEvent::Verbatim(vec![b'&', 0xff])),
        XmlEvent::CData(String::new())
    );
}

#[test]
fn text_that_cannot_be_unescaped_is_a_syntax_failure() {
    let reader = EventReader::new("");
    match decode_event(&reader, RawEvent::Chars(b"&bogus;".to_vec())) {
        XmlEvent::Failed(ErrorKind::Syntax(diagnostic)) => {
            assert!(diagnostic.contains("EscapeError"), "{}", diagnostic)
        }
        other => panic!("{:?}", other),
    }
}

#[test]
fn attributes_are_decoded_in_order() {
    let reader = EventReader::new("");
    let content = b"tag  b = \"2\" a='&lt;1&gt;' \xc3\xa9=''".to_vec();
    assert_eq!(
        decode_attributes(&reader, &content, 3),
        Ok(pairs(vec![("b", "2"), ("a", "<1>"), ("é", "")]))
    );
    assert_eq!(decode_attributes(&reader, &b"tag".to_vec(), 3), Ok(vec![]));
}

#[test]
fn attribute_failures_by_kind() {
    let reader = EventReader::new("");
    assert_eq!(decode_attributes(&reader, &b"t a='1' b".to_vec(), 1), Ok(pairs(vec![("a", "1")])));
    match decode_attributes(&reader, &b"t a='1' b=2".to_vec(), 1) {
        Err(ErrorKind::AttributeSyntax(_)) => {}
        other => panic!("{:?}", other),
    }
    assert_eq!(
        decode_attributes(&reader, &b"t a='1' \xff='2'".to_vec(), 1),
        Err(ErrorKind::AttributeKey)
    );
    match decode_attributes(&reader, &b"t a='&nope;' \xff='2'".to_vec(), 1) {
        Err(ErrorKind::AttributeValue(_)) => {}
        other => panic!("{:?}", other),
    }
    match decode_attributes(&reader, &b"t a='1' a='2'".to_vec(), 1) {
        Err(ErrorKind::AttributeSyntax(diagnostic)) => {
            assert!(diagnostic.contains("Duplicate"), "{}", diagnostic)
        }
        other => panic!("{:?}", other),
    }
}

#[test]
fn node_starts_empty() {
    let node = Node::new("a".to_string());
    assert_eq!(node, leaf("a", Primitive::Null));
}

#[test]
fn node_content_is_coerced_and_replaced() {
    let mut node = Node::new("a".to_string());
    node.set_content("12");
    assert_eq!(node.content, Primitive::Integer(12));
    node.set_content("twelve");
    assert_eq!(node.content, Primitive::String("twelve".to_string()));
}

#[test]
fn node_attributes_are_set() {
    let mut node = Node::new("a".to_string());
    node.set_attributes(pairs(vec![("k", "v"), ("k", "w")]));
    assert_eq!(node.attributes, pairs(vec![("k", "v"), ("k", "w")]));
}

#[test]
fn second_child_of_a_name_makes_a_sequence() {
    let mut node = Node::new("r".to_string());
    node.insert_child("a", leaf("a", Primitive::Integer(1)));
    node.insert_child("b", leaf("b", Primitive::Null));
    assert_eq!(
        node.children,
        vec![
            ("a".to_string(), ChildValue::Object(leaf("a", Primitive::Integer(1)))),
            ("b".to_string(), ChildValue::Object(leaf("b", Primitive::Null))),
        ]
    );
    node.insert_child("a", leaf("a", Primitive::Integer(2)));
    assert_eq!(
        node.children,
        vec![
            (
                "a".to_string(),
                ChildValue::Array(vec![
                    leaf("a", Primitive::Integer(1)),
                    leaf("a", Primitive::Integer(2))
                ])
            ),
            ("b".to_string(), ChildValue::Object(leaf("b", Primitive::Null))),
        ]
    );
    node.insert_child("a", leaf("a", Primitive::Integer(3)));
    assert_eq!(
        node.children[0].1,
        ChildValue::Array(vec![
            leaf("a", Primitive::Integer(1)),
            leaf("a", Primitive::Integer(2)),
            leaf("a", Primitive::Integer(3))
        ])
    );
    assert_eq!(node.find_child("a"), 0);
    assert_eq!(node.find_child("b"), 1);
    assert_eq!(node.find_child("c"), 2);
}

#[test]
fn tree_of_a_document() {
    let root = Node::from_str("top<r k='v'><a>1</a><a/>t</r>").unwrap();
    let mut r = Node::new("r".to_string());
    r.attributes = pairs(vec![("k", "v")]);
    r.content = Primitive::String("t".to_string());
    r.children = vec![(
        "a".to_string(),
        ChildValue::Array(vec![leaf("a", Primitive::Integer(1)), leaf("a", Primitive::Null)]),
    )];
    let mut want = Node::new("root".to_string());
    want.content = Primitive::String("top".to_string());
    want.children = vec![("r".to_string(), ChildValue::Object(r))];
    assert_eq!(root, want);
}

#[test]
fn tree_of_a_failing_document() {
    assert_eq!(
        Node::from_str("<r><a>"),
        Err(ParseError { position: 6, kind: ErrorKind::UnexpectedEof { open_tag: "a".to_string() } })
    );
}

#[test]
fn tree_from_events() {
    let events = numbered(vec![
        start("r", vec![]),
        XmlEvent::Skipped,
        text("1"),
        XmlEvent::CData("2".to_string()),
        empty("e", vec![("k", "v")]),
        end("r"),
        XmlEvent::Eof,
        start("ignored", vec![]),
    ]);
    let root = Node::from_events(events).unwrap();
    let mut e = Node::new("e".to_string());
    e.attributes = pairs(vec![("k", "v")]);
    let mut r = Node::new("r".to_string());
    r.content = Primitive::Integer(2);
    r.children = vec![("e".to_string(), ChildValue::Object(e))];
    let mut want = Node::new("root".to_string());
    want.children = vec![("r".to_string(), ChildValue::Object(r))];
    assert_eq!(root, want);
}

#[test]
fn events_without_an_end_are_finished_at_offset_zero() {
    let events = numbered(vec![start("r", vec![])]);
    assert_eq!(
        Node::from_events(events),
        Err(ParseError { position: 0, kind: ErrorKind::UnexpectedEof { open_tag: "r".to_string() } })
    );
    assert_eq!(Node::from_events(vec![]), Ok(Node::new("root".to_string())));
    assert_eq!(xml_to_tree::xml_to_js_object::parse_events(vec![]), Ok(object(vec![])));
    assert_eq!(
        xml_to_tree::xml_to_struct_to_js_object::parse_events(vec![]),
        Ok(object(vec![]))
    );
}

fn mismatch(position: usize, expected: &str, found: &str) -> ParseError {
    ParseError {
        position,
        kind: ErrorKind::TagMismatch { expected: expected.to_string(), found: found.to_string() },
    }
}

#[test]
fn traversal_finds_a_mismatched_closing_tag() {
    let events = || numbered(vec![start("r", vec![]), start("a", vec![]), end("b"), end("r")]);
    assert_eq!(Node::from_events(events()), Err(mismatch(30, "a", "b")));
    assert_eq!(xml_to_tree::xml_to_js_object::parse_events(events()), Err(mismatch(30, "a", "b")));
    assert_eq!(
        xml_to_tree::xml_to_struct_to_js_object::parse_events(events()),
        Err(mismatch(30, "a", "b"))
    );
}

#[test]
fn closing_tag_at_the_top_level_is_held_against_the_root() {
    let events = || numbered(vec![empty("a", vec![]), end("a")]);
    assert_eq!(Node::from_events(events()), Err(mismatch(20, "root", "a")));
    assert_eq!(
        xml_to_tree::xml_to_js_object::parse_events(events()),
        Err(mismatch(20, "root", "a"))
    );
    let events = || numbered(vec![end("root")]);
    assert_eq!(Node::from_events(events()), Err(mismatch(10, "root", "root")));
    assert_eq!(
        xml_to_tree::xml_to_js_object::parse_events(events()),
        Err(mismatch(10, "root", "root"))
    );
}

#[test]
fn failed_event_ends_the_run_with_its_failure() {
    let events = || {
        numbered(vec![
            start("r", vec![]),
            XmlEvent::Failed(ErrorKind::AttributeKey),
            end("r"),
        ])
    };
    let want = ParseError { position: 20, kind: ErrorKind::AttributeKey };
    assert_eq!(Node::from_events(events()).as_ref(), Err(&want));
    assert_eq!(xml_to_tree::xml_to_js_object::parse_events(events()).as_ref(), Err(&want));
    assert_eq!(
        xml_to_tree::xml_to_struct_to_js_object::parse_events(events()).as_ref(),
        Err(&want)
    );
}

#[test]
fn unexpected_end_names_the_innermost_open_element() {
    let events = || {
        numbered(vec![start("r", vec![]), start("a", vec![]), start("b", vec![]), XmlEvent::Eof])
    };
    let want =
        ParseError { position: 40, kind: ErrorKind::UnexpectedEof { open_tag: "b".to_string() } };
    assert_eq!(Node::from_events(events()).as_ref(), Err(&want));
    assert_eq!(xml_to_tree::xml_to_js_object::parse_events(events()).as_ref(), Err(&want));
}

#[test]
fn tree_builder_keeps_its_state_on_a_failure() {
    let mut builder = TreeBuilder::new();
    assert_eq!(builder.step(start("r", vec![]), 1), Ok(()));
    assert_eq!(builder.step(end("x"), 2), Err(mismatch(2, "r", "x")));
    assert_eq!(builder.step(text("5"), 3), Ok(()));
    assert_eq!(builder.step(end("r"), 4), Ok(()));
    let root = builder.finish(5).unwrap();
    assert_eq!(
        root.children,
        vec![("r".to_string(), ChildValue::Object(leaf("r", Primitive::Integer(5))))]
    );
}

#[test]
fn direct_builder_keeps_its_state_on_a_failure() {
    let mut builder = DirectBuilder::new();
    assert_eq!(builder.step(start("r", vec![]), 1), Ok(()));
    assert_eq!(builder.step(end("x"), 2), Err(mismatch(2, "r", "x")));
    assert_eq!(builder.step(text("5"), 3), Ok(()));
    assert_eq!(builder.step(end("r"), 4), Ok(()));
    assert_eq!(builder.finish(5), Ok(object(vec![("r", Value::Integer(5))])));
}

#[test]
fn duplicate_attributes_in_an_event_keep_the_later_value() {
    let events = || numbered(vec![empty("a", vec![("k", "1"), ("j", "2"), ("k", "3")])]);
    let want = object(vec![(
        "a",
        object(vec![("$", object(vec![("k", string("3")), ("j", string("2"))]))]),
    )]);
    assert_eq!(xml_to_tree::xml_to_js_object::parse_events(events()), Ok(want));
    let want = object(vec![(
        "a",
        object(vec![("$", object(vec![("k", string("3")), ("j", string("2"))]))]),
    )]);
    assert_eq!(xml_to_tree::xml_to_struct_to_js_object::parse_events(events()), Ok(want));
}

#[test]
fn flags_of_a_frame() {
    let flags = NodeFlags::new();
    assert_eq!(
        flags,
        NodeFlags { has_attributes: false, has_content: false, has_children: false }
    );
    assert!(flags.is_empty());
    assert!(flags.is_just_content());
    let flags = NodeFlags { has_attributes: false, has_content: true, has_children: false };
    assert!(!flags.is_empty());
    assert!(flags.is_just_content());
    let flags = NodeFlags { has_attributes: true, has_content: false, has_children: false };
    assert!(!flags.is_empty());
    assert!(!flags.is_just_content());
    let flags = NodeFlags { has_attributes: false, has_content: false, has_children: true };
    assert!(!flags.is_empty());
    assert!(!flags.is_just_content());
}

#[test]
fn merging_values_into_an_object() {
    let mut entries: Vec<(String, Value)> = vec![];
    insert_value_into_js_object("a", Value::Integer(1), &mut entries);
    insert_value_into_js_object("b", string("x"), &mut entries);
    assert_eq!(Value::Object(entries), object(vec![("a", Value::Integer(1)), ("b", string("x"))]));

    let mut entries: Vec<(String, Value)> =
        vec![("a".to_string(), Value::Integer(1)), ("b".to_string(), string("x"))];
    insert_value_into_js_object("a", Value::Integer(2), &mut entries);
    assert_eq!(
        entries,
        vec![
            ("a".to_string(), Value::Array(vec![Value::Integer(1), Value::Integer(2)])),
            ("b".to_string(), string("x")),
        ]
    );
    insert_value_into_js_object("a", object(vec![]), &mut entries);
    assert_eq!(
        entries[0].1,
        Value::Array(vec![Value::Integer(1), Value::Integer(2), object(vec![])])
    );
    insert_value_into_js_object("b", Value::Array(vec![]), &mut entries);
    assert_eq!(entries[1].1, Value::Array(vec![string("x"), Value::Array(vec![])]));
}

#[test]
fn setting_properties_of_an_object() {
    let mut entries: Vec<(String, Value)> = vec![];
    set_property(&mut entries, "a", Value::Integer(1));
    set_property(&mut entries, "b", Value::Integer(2));
    set_property(&mut entries, "a", Value::Array(vec![]));
    assert_eq!(
        entries,
        vec![("a".to_string(), Value::Array(vec![])), ("b".to_string(), Value::Integer(2))]
    );
    assert_eq!(find_key(&entries, "a"), 0);
    assert_eq!(find_key(&entries, "b"), 1);
    assert_eq!(find_key(&entries, "c"), 2);
}

#[test]
fn attributes_go_under_the_dollar_sign() {
    let mut entries: Vec<(String, Value)> = vec![];
    assert!(!set_attributes_into_js_object(&vec![], &mut entries));
    assert!(entries.is_empty());
    assert!(set_attributes_into_js_object(&pairs(vec![("k", "1")]), &mut entries));
    assert_eq!(Value::Object(entries), object(vec![("$", object(vec![("k", string("1"))]))]));
    assert_eq!(
        Value::Object(attributes_object(&pairs(vec![("a", "1"), ("b", "2"), ("a", "3")]))),
        object(vec![("a", string("3")), ("b", string("2"))])
    );
}

#[test]
fn values_of_elements_in_the_direct_conversion() {
    assert_eq!(text_value("12"), Value::Integer(12));
    assert_eq!(text_value("1.5"), Value::Float("1.5".to_string()));
    assert_eq!(text_value("true"), Value::Boolean(true));
    assert_eq!(text_value("x"), string("x"));
    assert_eq!(value_of_childless(&vec![]), string(""));
    assert_eq!(
        value_of_childless(&pairs(vec![("k", "v")])),
        object(vec![("$", object(vec![("k", string("v"))]))])
    );
    let frame = |entries: Vec<(&str, Value)>, a: bool, c: bool, h: bool| Frame {
        name: "x".to_string(),
        js_object: entries.into_iter().map(|(k, v)| (k.to_string(), v)).collect(),
        flags: NodeFlags { has_attributes: a, has_content: c, has_children: h },
    };
    assert_eq!(value_of_closed(frame(vec![], false, false, false)), string(""));
    assert_eq!(
        value_of_closed(frame(vec![("_", Value::Integer(3))], false, true, false)),
        Value::Integer(3)
    );
    assert_eq!(value_of_closed(frame(vec![], false, true, false)), string(""));
    assert_eq!(
        value_of_closed(frame(vec![("_", Value::Integer(3)), ("a", string(""))], false, true, true)),
        object(vec![("_", Value::Integer(3)), ("a", string(""))])
    );
    assert_eq!(
        value_of_closed(frame(vec![("$", object(vec![]))], true, false, false)),
        object(vec![("$", object(vec![]))])
    );
}

#[test]
fn content_as_a_value() {
    assert_eq!(parse_content_as_js(&Primitive::Null), None);
    assert_eq!(parse_content_as_js(&Primitive::Integer(4)), Some(Value::Integer(4)));
    assert_eq!(
        parse_content_as_js(&Primitive::Float("4.5".to_string())),
        Some(Value::Float("4.5".to_string()))
    );
    assert_eq!(parse_content_as_js(&Primitive::Boolean(true)), Some(Value::Boolean(true)));
    assert_eq!(parse_content_as_js(&Primitive::String("s".to_string())), Some(string("s")));
}

#[test]
fn flattening_nodes() {
    assert_eq!(flatten_node(&leaf("a", Primitive::Null)), string(""));
    assert_eq!(flatten_node(&leaf("a", Primitive::Integer(1))), Value::Integer(1));
    let mut with_attribute = leaf("a", Primitive::Null);
    with_attribute.attributes = pairs(vec![("k", "v")]);
    assert_eq!(
        flatten_node(&with_attribute),
        object(vec![("$", object(vec![("k", string("v"))]))])
    );
    let mut parent = leaf("p", Primitive::Boolean(true));
    parent.insert_child("a", leaf("a", Primitive::Integer(1)));
    parent.insert_child("a", with_attribute);
    parent.insert_child("b", leaf("b", Primitive::Null));
    let want = object(vec![
        ("_", Value::Boolean(true)),
        (
            "a",
            Value::Array(vec![
                Value::Integer(1),
                object(vec![("$", object(vec![("k", string("v"))]))]),
            ]),
        ),
        ("b", string("")),
    ]);
    assert_eq!(flatten_node(&parent), want);
    assert_eq!(
        flatten_nodes(&vec![leaf("a", Primitive::Integer(1)), leaf("a", Primitive::Null)]),
        vec![Value::Integer(1), string("")]
    );
    let mut root = Node::new("root".to_string());
    root.set_content("ignored");
    root.insert_child("p", parent);
    match flatten_root(&root) {
        Value::Object(entries) => {
            assert_eq!(entries.len(), 1);
            assert_eq!(entries[0].0, "p");
            assert_eq!(entries[0].1, want);
        }
        other => panic!("{:?}", other),
    }
}

#[test]
fn collecting_children_sets_properties() {
    let mut node = Node::new("p".to_string());
    node.insert_child("a", leaf("a", Primitive::Integer(1)));
    node.insert_child("_", leaf("_", Primitive::Integer(2)));
    let mut entries: Vec<(String, Value)> =
        vec![("_".to_string(), string("content")), ("z".to_string(), string("kept"))];
    collect_children_into(&node.children, &mut entries);
    assert_eq!(
        Value::Object(entries),
        object(vec![("_", Value::Integer(2)), ("z", string("kept")), ("a", Value::Integer(1))])
    );
}
