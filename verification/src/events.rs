use vstd::prelude::*;
use vstd::utf8::{decode_utf8, valid_utf8};
use crate::error::{ErrorKind, Fault};
use crate::tokenizer::{
    attribute_items, document_tokens, items_view, next_raw_event, open_reader, pending_tokens,
    position, raw_attributes, reader_text, unescape_text, unescape_value, unescaped_text,
    unescaped_value, utf8_text, EventReader, RawEvent, RawToken,
};

verus! {

/// What an `XmlEvent` holds, every string taken as its characters.
pub enum Event {
    Start { name: Seq<char>, attributes: Seq<(Seq<char>, Seq<char>)> },
    Empty { name: Seq<char>, attributes: Seq<(Seq<char>, Seq<char>)> },
    Text(Seq<char>),
    CData(Seq<char>),
    End { name: Seq<char> },
    Eof,
    Skipped,
    Failed(Fault),
}

impl Event {
    /// Whether no event is read after this one.
    pub open spec fn is_last(self) -> bool {
        self is Eof || self is Failed
    }
}

/// One event of a document, decoded: names and attribute names as text,
/// attribute values and character data with their entities replaced.
#[derive(Debug, PartialEq)]
pub enum XmlEvent {
    /// An opening tag with its attributes in document order.
    Start { name: String, attributes: Vec<(String, String)> },
    /// A self-closing tag with its attributes in document order.
    Empty { name: String, attributes: Vec<(String, String)> },
    /// Character data.
    Text(String),
    /// The content of a CDATA section.
    CData(String),
    /// A closing tag.
    End { name: String },
    /// The end of the document.
    Eof,
    /// A comment, declaration, processing instruction or document type.
    Skipped,
    /// The document is malformed at this place.
    Failed(ErrorKind),
}

/// A list of attributes, each name and value taken as its characters.
pub open spec fn pairs_of(pairs: Seq<(String, String)>) -> Seq<(Seq<char>, Seq<char>)> {
    Seq::new(pairs.len(), |i: int| (pairs[i].0@, pairs[i].1@))
}

impl View for XmlEvent {
    type V = Event;

    open spec fn view(&self) -> Event {
        match self {
            XmlEvent::Start { name, attributes } => Event::Start {
                name: name@,
                attributes: pairs_of(attributes@),
            },
            XmlEvent::Empty { name, attributes } => Event::Empty {
                name: name@,
                attributes: pairs_of(attributes@),
            },
            XmlEvent::Text(text) => Event::Text(text@),
            XmlEvent::CData(text) => Event::CData(text@),
            XmlEvent::End { name } => Event::End { name: name@ },
            XmlEvent::Eof => Event::Eof,
            XmlEvent::Skipped => Event::Skipped,
            XmlEvent::Failed(kind) => Event::Failed(kind@),
        }
    }
}

/// Copies of the attributes of an element, in order.
pub fn clone_pairs(pairs: &Vec<(String, String)>) -> (copies: Vec<(String, String)>)
    ensures
        pairs_of(copies@) == pairs_of(pairs@),
{
    let mut copies: Vec<(String, String)> = Vec::new();
    let mut i: usize = 0;
    while i < pairs.len()
        invariant
            i <= pairs.len(),
            pairs_of(copies@) == pairs_of(pairs@).take(i as int),
        decreases pairs.len() - i,
    {
        let ghost before = pairs_of(copies@);
        let key = pairs[i].0.clone();
        let value = pairs[i].1.clone();
        copies.push((key, value));
        assert(pairs_of(copies@) =~= before.push((key@, value@)));
        i = i + 1;
    }
    copies
}

impl Clone for XmlEvent {
    /// An event that holds the same.
    fn clone(&self) -> (copy: Self)
        ensures
            copy@ == self@,
    {
        match self {
            XmlEvent::Start { name, attributes } => XmlEvent::Start {
                name: name.clone(),
                attributes: clone_pairs(attributes),
            },
            XmlEvent::Empty { name, attributes } => XmlEvent::Empty {
                name: name.clone(),
                attributes: clone_pairs(attributes),
            },
            XmlEvent::Text(text) => XmlEvent::Text(text.clone()),
            XmlEvent::CData(text) => XmlEvent::CData(text.clone()),
            XmlEvent::End { name } => XmlEvent::End { name: name.clone() },
            XmlEvent::Eof => XmlEvent::Eof,
            XmlEvent::Skipped => XmlEvent::Skipped,
            XmlEvent::Failed(kind) => XmlEvent::Failed(kind.clone()),
        }
    }
}

/// One attribute, decoded: its name read as UTF-8 and its value unescaped.
/// A malformed attribute, a name that is not UTF-8 and a value that cannot
/// be unescaped are each a fault of their own kind.
pub open spec fn decoded_pair(item: Result<(Seq<u8>, Seq<u8>), Seq<char>>) -> Result<
    (Seq<char>, Seq<char>),
    Fault,
> {
    match item {
        Err(diagnostic) => Err(Fault::AttributeSyntax(diagnostic)),
        Ok(pair) => if !valid_utf8(pair.0) {
            Err(Fault::AttributeKey)
        } else {
            match unescaped_value(pair.1) {
                Err(diagnostic) => Err(Fault::AttributeValue(diagnostic)),
                Ok(value) => Ok((decode_utf8(pair.0), value)),
            }
        },
    }
}

/// The attributes of a tag, decoded in order, or the fault of the first of
/// them that has one.
pub open spec fn decoded_attributes(items: Seq<Result<(Seq<u8>, Seq<u8>), Seq<char>>>) -> Result<
    Seq<(Seq<char>, Seq<char>)>,
    Fault,
>
    decreases items.len(),
{
    if items.len() == 0 {
        Ok(Seq::empty())
    } else {
        match decoded_attributes(items.drop_last()) {
            Err(fault) => Err(fault),
            Ok(pairs) => match decoded_pair(items.last()) {
                Err(fault) => Err(fault),
                Ok(pair) => Ok(pairs.push(pair)),
            },
        }
    }
}

/// The name and the attributes of a tag, decoded. A name that is not UTF-8
/// is an encoding fault.
pub open spec fn decoded_tag(name: Seq<u8>, content: Seq<u8>) -> Result<
    (Seq<char>, Seq<(Seq<char>, Seq<char>)>),
    Fault,
> {
    if !valid_utf8(name) {
        Err(Fault::Encoding)
    } else {
        match decoded_attributes(attribute_items(content, name.len() as usize)) {
            Err(fault) => Err(fault),
            Ok(attributes) => Ok((decode_utf8(name), attributes)),
        }
    }
}

/// The event that one step of the tokenizer stands for. Character data that
/// cannot be unescaped is a syntax fault; a CDATA section that cannot is
/// taken as it is written, or as empty where it is not UTF-8.
pub open spec fn decoded(token: RawToken) -> Event {
    match token {
        RawToken::Opened(name, content) => match decoded_tag(name, content) {
            Ok(tag) => Event::Start { name: tag.0, attributes: tag.1 },
            Err(fault) => Event::Failed(fault),
        },
        RawToken::Childless(name, content) => match decoded_tag(name, content) {
            Ok(tag) => Event::Empty { name: tag.0, attributes: tag.1 },
            Err(fault) => Event::Failed(fault),
        },
        RawToken::Closed(name) => if valid_utf8(name) {
            Event::End { name: decode_utf8(name) }
        } else {
            Event::Failed(Fault::Encoding)
        },
        RawToken::Chars(escaped) => match unescaped_text(escaped) {
            Ok(text) => Event::Text(text),
            Err(diagnostic) => Event::Failed(Fault::Syntax(diagnostic)),
        },
        RawToken::Verbatim(escaped) => match unescaped_text(escaped) {
            Ok(text) => Event::CData(text),
            Err(_) => Event::CData(
                if valid_utf8(escaped) {
                    decode_utf8(escaped)
                } else {
                    Seq::empty()
                },
            ),
        },
        RawToken::Finished => Event::Eof,
        RawToken::Skipped => Event::Skipped,
        RawToken::Mismatched(expected, found) => Event::Failed(
            Fault::TagMismatch { expected, found },
        ),
        RawToken::Broken(diagnostic) => Event::Failed(Fault::Syntax(diagnostic)),
    }
}

/// The events that a run of tokenizer steps stands for, each with the byte
/// offset reached after it.
pub open spec fn decoded_steps(tokens: Seq<(RawToken, usize)>) -> Seq<(Event, usize)> {
    Seq::new(tokens.len(), |i: int| (decoded(tokens[i].0), tokens[i].1))
}

/// The events of the document `xml`, each with the byte offset reached after it.
pub open spec fn xml_events(xml: Seq<char>) -> Seq<(Event, usize)> {
    decoded_steps(document_tokens(xml))
}

/// A fault among the first attributes of a tag is the fault of them all.
pub proof fn lemma_attribute_fault_stays(
    items: Seq<Result<(Seq<u8>, Seq<u8>), Seq<char>>>,
    k: int,
)
    requires
        0 <= k <= items.len(),
        decoded_attributes(items.take(k)) is Err,
    ensures
        decoded_attributes(items) == decoded_attributes(items.take(k)),
    decreases items.len(),
{
    if k == items.len() {
        assert(items.take(k) =~= items);
    } else {
        assert(items.drop_last().take(k) =~= items.take(k));
        lemma_attribute_fault_stays(items.drop_last(), k);
    }
}

/// Decodes the attributes that the bytes `content` of a tag hold behind a
/// name of `name_len` bytes.
pub fn decode_attributes(reader: &EventReader, content: &Vec<u8>, name_len: usize) -> (r: Result<
    Vec<(String, String)>,
    ErrorKind,
>)
    ensures
        match r {
            Ok(pairs) => decoded_attributes(attribute_items(content@, name_len)) == Ok::<
                Seq<(Seq<char>, Seq<char>)>,
                Fault,
            >(pairs_of(pairs@)),
            Err(kind) => decoded_attributes(attribute_items(content@, name_len)) == Err::<
                Seq<(Seq<char>, Seq<char>)>,
                Fault,
            >(kind@),
        },
{
    let items = raw_attributes(content, name_len);
    let ghost all = attribute_items(content@, name_len);
    let mut pairs: Vec<(String, String)> = Vec::new();
    let mut i: usize = 0;
    assert(pairs_of(pairs@) =~= Seq::empty());
    while i < items.len()
        invariant
            i <= items.len(),
            all == items_view(items@),
            all == attribute_items(content@, name_len),
            decoded_attributes(all.take(i as int)) == Ok::<Seq<(Seq<char>, Seq<char>)>, Fault>(
                pairs_of(pairs@),
            ),
        decreases items.len() - i,
    {
        let ghost next = all.take(i + 1);
        assert(next.drop_last() =~= all.take(i as int));
        match &items[i] {
            Err(diagnostic) => {
                proof {
                    lemma_attribute_fault_stays(all, i + 1);
                }
                return Err(ErrorKind::AttributeSyntax(diagnostic.clone()));
            },
            Ok(pair) => {
                let key = utf8_text(&pair.0);
                match key {
                    None => {
                        proof {
                            lemma_attribute_fault_stays(all, i + 1);
                        }
                        return Err(ErrorKind::AttributeKey);
                    },
                    Some(key) => {
                        match unescape_value(reader, &pair.1) {
                            Err(diagnostic) => {
                                proof {
                                    lemma_attribute_fault_stays(all, i + 1);
                                }
                                return Err(ErrorKind::AttributeValue(diagnostic));
                            },
                            Ok(value) => {
                                let ghost before = pairs_of(pairs@);
                                pairs.push((key, value));
                                assert(pairs_of(pairs@) =~= before.push((key@, value@)));
                            },
                        }
                    },
                }
            },
        }
        i = i + 1;
    }
    assert(all.take(i as int) =~= all);
    Ok(pairs)
}

/// Decodes one step of the tokenizer.
pub fn decode_event(reader: &EventReader, raw: RawEvent) -> (event: XmlEvent)
    ensures
        event@ == decoded(raw@),
{
    match raw {
        RawEvent::Opened(name, content) => {
            match utf8_text(&name) {
                None => XmlEvent::Failed(ErrorKind::Encoding),
                Some(name_text) => match decode_attributes(reader, &content, name.len()) {
                    Err(kind) => XmlEvent::Failed(kind),
                    Ok(attributes) => XmlEvent::Start { name: name_text, attributes },
                },
            }
        },
        RawEvent::Childless(name, content) => {
            match utf8_text(&name) {
                None => XmlEvent::Failed(ErrorKind::Encoding),
                Some(name_text) => match decode_attributes(reader, &content, name.len()) {
                    Err(kind) => XmlEvent::Failed(kind),
                    Ok(attributes) => XmlEvent::Empty { name: name_text, attributes },
                },
            }
        },
        RawEvent::Closed(name) => match utf8_text(&name) {
            None => XmlEvent::Failed(ErrorKind::Encoding),
            Some(name_text) => XmlEvent::End { name: name_text },
        },
        RawEvent::Chars(escaped) => match unescape_text(reader, &escaped) {
            Ok(text) => XmlEvent::Text(text),
            Err(diagnostic) => XmlEvent::Failed(ErrorKind::Syntax(diagnostic)),
        },
        RawEvent::Verbatim(escaped) => match unescape_text(reader, &escaped) {
            Ok(text) => XmlEvent::CData(text),
            Err(_) => match reader_text(reader, &escaped) {
                Some(text) => XmlEvent::CData(text),
                None => XmlEvent::CData(String::new()),
            },
        },
        RawEvent::Finished => XmlEvent::Eof,
        RawEvent::Skipped => XmlEvent::Skipped,
        RawEvent::Mismatched(expected, found) => XmlEvent::Failed(
            ErrorKind::TagMismatch { expected, found },
        ),
        RawEvent::Broken(diagnostic) => XmlEvent::Failed(ErrorKind::Syntax(diagnostic)),
    }
}

impl<'a> EventReader<'a> {
    /// The events that the reader will still deliver, each with the byte
    /// offset reached after it.
    pub open spec fn pending(&self) -> Seq<(Event, usize)> {
        decoded_steps(pending_tokens(*self))
    }

    /// A reader at the start of the document `xml`.
    pub fn new(xml: &'a str) -> (reader: Self)
        ensures
            reader.pending() == xml_events(xml@),
            reader.pending().len() > 0,
    {
        open_reader(xml)
    }

    /// Reads the next event and the byte offset reached after it. With
    /// nothing pending the end of the document is reported once more.
    pub fn next_event(&mut self) -> (step: (XmlEvent, usize))
        ensures
            old(self).pending().len() > 0 ==> (step.0@, step.1) == old(self).pending()[0]
                && final(self).pending() == old(self).pending().skip(1),
            old(self).pending().len() == 0 ==> step.0 is Eof && final(self).pending().len() == 0,
            !step.0@.is_last() ==> final(self).pending().len() > 0,
    {
        let raw = next_raw_event(self);
        let offset = position(self);
        let event = decode_event(self, raw);
        (event, offset)
    }
}

} // verus!
