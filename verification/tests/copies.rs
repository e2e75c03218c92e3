use xml_to_tree::error::{ErrorKind, ParseError};
use xml_to_tree::events::{clone_pairs, XmlEvent};
use xml_to_tree::value::Value;
use xml_to_tree::xml_node::{ChildValue, Node, Primitive};
use xml_to_tree::xml_to_struct_to_js_object;

#[test]
fn values_are_copied_whole() {
    let value = xml_to_struct_to_js_object::parse(
        "<r k='v'><a>1</a><a>2.5</a><b><c>true</c><c/></b>text</r>",
    )
    .unwrap();
    let copy = value.clone();
    assert_eq!(copy, value);
    assert_ne!(copy, Value::Object(vec![]));
}

#[test]
fn nodes_are_copied_whole() {
    let root = Node::from_str("<r k='v'><a>1</a><a>2.5</a><b><c>true</c><c/></b>text</r>").unwrap();
    let copy = root.clone();
    assert_eq!(copy, root);
    assert_eq!(copy.children.len(), 1);
    match &copy.children[0].1 {
        ChildValue::Object(r) => {
            assert_eq!(r.attributes, vec![("k".to_string(), "v".to_string())]);
            assert_eq!(r.content, Primitive::String("text".to_string()));
            assert_eq!(r.children[0].1.clone(), r.children[0].1);
        }
        other => panic!("{:?}", other),
    }
}

#[test]
fn scalars_are_copied() {
    for scalar in [
        Primitive::Null,
        Primitive::Integer(3),
        Primitive::Float("3.5".to_string()),
        Primitive::Boolean(true),
        Primitive::String("s".to_string()),
    ] {
        assert_eq!(scalar.clone(), scalar);
    }
}

#[test]
fn errors_and_events_are_copied() {
    let kinds = vec![
        ErrorKind::Syntax("d".to_string()),
        ErrorKind::Encoding,
        ErrorKind::TagMismatch { expected: "a".to_string(), found: "b".to_string() },
        ErrorKind::UnexpectedEof { open_tag: "a".to_string() },
        ErrorKind::AttributeSyntax("d".to_string()),
        ErrorKind::AttributeKey,
        ErrorKind::AttributeValue("d".to_string()),
    ];
    for kind in kinds {
        assert_eq!(kind.clone(), kind);
        let error = ParseError { position: 7, kind: kind.clone() };
        assert_eq!(error.clone(), error);
        let event = XmlEvent::Failed(kind);
        assert_eq!(event.clone(), event);
    }
    let attributes = vec![("a".to_string(), "1".to_string()), ("b".to_string(), "2".to_string())];
    assert_eq!(clone_pairs(&attributes), attributes);
    let events = vec![
        XmlEvent::Start { name: "a".to_string(), attributes: attributes.clone() },
        XmlEvent::Empty { name: "a".to_string(), attributes },
        XmlEvent::Text("t".to_string()),
        XmlEvent::CData("c".to_string()),
        XmlEvent::End { name: "a".to_string() },
        XmlEvent::Eof,
        XmlEvent::Skipped,
    ];
    for event in events {
        assert_eq!(event.clone(), event);
    }
}
