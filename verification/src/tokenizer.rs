use vstd::prelude::*;
use vstd::utf8::{decode_utf8, valid_utf8};
use quick_xml::events::attributes::Attribute;
use quick_xml::events::Event::{CData, Empty, End, Eof, Start, Text};
use quick_xml::events::{BytesStart, BytesText};
use quick_xml::Error::EndEventMismatch;
use quick_xml::Reader;
use std::borrow::Cow;

verus! {

/// What a `RawEvent` holds, as bytes and characters.
pub enum RawToken {
    Opened(Seq<u8>, Seq<u8>),
    Childless(Seq<u8>, Seq<u8>),
    Closed(Seq<u8>),
    Chars(Seq<u8>),
    Verbatim(Seq<u8>),
    Finished,
    Skipped,
    Mismatched(Seq<char>, Seq<char>),
    Broken(Seq<char>),
}

/// One step of the tokenizer, with the bytes it delivered still undecoded.
pub enum RawEvent {
    /// An opening tag: the bytes of its name, and those of the whole tag.
    Opened(Vec<u8>, Vec<u8>),
    /// A self-closing tag, in the same form.
    Childless(Vec<u8>, Vec<u8>),
    /// A closing tag: the bytes of its name.
    Closed(Vec<u8>),
    /// Character data, entities not yet replaced.
    Chars(Vec<u8>),
    /// A CDATA section, in escaped form.
    Verbatim(Vec<u8>),
    /// The end of the document.
    Finished,
    /// A comment, declaration, processing instruction or document type.
    Skipped,
    /// A closing tag that does not close the element that is open: the name
    /// that was expected, and the name that was found.
    Mismatched(String, String),
    /// Any other failure of the tokenizer, in its own words.
    Broken(String),
}

impl View for RawEvent {
    type V = RawToken;

    open spec fn view(&self) -> RawToken {
        match self {
            RawEvent::Opened(name, content) => RawToken::Opened(name@, content@),
            RawEvent::Childless(name, content) => RawToken::Childless(name@, content@),
            RawEvent::Closed(name) => RawToken::Closed(name@),
            RawEvent::Chars(escaped) => RawToken::Chars(escaped@),
            RawEvent::Verbatim(escaped) => RawToken::Verbatim(escaped@),
            RawEvent::Finished => RawToken::Finished,
            RawEvent::Skipped => RawToken::Skipped,
            RawEvent::Mismatched(expected, found) => RawToken::Mismatched(expected@, found@),
            RawEvent::Broken(diagnostic) => RawToken::Broken(diagnostic@),
        }
    }
}

impl RawToken {
    /// Whether the tokenizer delivers nothing more after this.
    pub open spec fn is_last(self) -> bool {
        self is Finished || self is Mismatched || self is Broken
    }
}

/// A tokenizer at some place in a document: a `quick_xml::Reader` over the
/// bytes of a string. Nothing is known of it but what `pending_tokens` and
/// `offset_reached` name.
#[verifier::external_body]
pub struct EventReader<'a> {
    reader: Reader<&'a [u8]>,
}

/// What the tokenizer will still deliver from where it stands: each step
/// with the byte offset reached after it, up to the end of the document or
/// the first failure.
pub uninterp spec fn pending_tokens(reader: EventReader) -> Seq<(RawToken, usize)>;

/// The byte offset that the tokenizer has reached in its document.
pub uninterp spec fn offset_reached(reader: EventReader) -> usize;

/// What the tokenizer delivers from the start of the document `xml`, with
/// surrounding white space trimmed from character data.
pub uninterp spec fn document_tokens(xml: Seq<char>) -> Seq<(RawToken, usize)>;

/// The attributes that the tokenizer finds in the bytes `content` of a tag
/// behind a name of `name_len` bytes, in order: for each its name and its raw
/// value, or the diagnostic of the one that is malformed.
pub uninterp spec fn attribute_items(content: Seq<u8>, name_len: usize) -> Seq<
    Result<(Seq<u8>, Seq<u8>), Seq<char>>,
>;

/// The text that the escaped character data `escaped` stands for, or the
/// tokenizer's diagnostic.
pub uninterp spec fn unescaped_text(escaped: Seq<u8>) -> Result<Seq<char>, Seq<char>>;

/// The text that the raw attribute value `raw` stands for, or the
/// tokenizer's diagnostic.
pub uninterp spec fn unescaped_value(raw: Seq<u8>) -> Result<Seq<char>, Seq<char>>;

/// `Reader::from_str`, then `Reader::trim_text(true)`: a tokenizer at the
/// start of `xml`. It will deliver what `document_tokens` names, which is at
/// least one step.
#[verifier::external_body]
pub(crate) fn open_reader<'a>(xml: &'a str) -> (reader: EventReader<'a>)
    ensures
        pending_tokens(reader) == document_tokens(xml@),
        pending_tokens(reader).len() > 0,
{
    let mut reader = Reader::from_str(xml);
    reader.trim_text(true);
    EventReader { reader }
}

/// `Reader::read_event`: the next step of the tokenizer. An event is handed
/// on as the bytes it dereferences to, a tag also as the bytes of its name;
/// the failure `EndEventMismatch` as its two names, any other failure as
/// its `Debug` rendering.
///
/// The step is the first of those pending, with the offset now reached, and
/// leaves the others pending; unless it is the end of the document or a
/// failure, something is still pending. With nothing pending the tokenizer
/// reports the end of the document.
#[verifier::external_body]
pub(crate) fn next_raw_event(reader: &mut EventReader) -> (step: RawEvent)
    ensures
        pending_tokens(*old(reader)).len() > 0 ==> (step@, offset_reached(*final(reader)))
            == pending_tokens(*old(reader))[0] && pending_tokens(*final(reader))
            == pending_tokens(*old(reader)).skip(1),
        pending_tokens(*old(reader)).len() == 0 ==> step is Finished && pending_tokens(
            *final(reader),
        ).len() == 0,
        !step@.is_last() ==> pending_tokens(*final(reader)).len() > 0,
{
    let mut buf = Vec::new();
    match reader.reader.read_event(&mut buf) {
        Ok(Start(e)) => RawEvent::Opened(e.name().to_vec(), e.to_vec()),
        Ok(Empty(e)) => RawEvent::Childless(e.name().to_vec(), e.to_vec()),
        Ok(End(e)) => RawEvent::Closed(e.to_vec()),
        Ok(Text(e)) => RawEvent::Chars(e.to_vec()),
        Ok(CData(e)) => RawEvent::Verbatim(e.to_vec()),
        Ok(Eof) => RawEvent::Finished,
        Ok(_) => RawEvent::Skipped,
        Err(EndEventMismatch { expected, found }) => RawEvent::Mismatched(expected, found),
        Err(e) => RawEvent::Broken(format!("{:?}", e)),
    }
}

/// `Reader::buffer_position`: the byte offset that the tokenizer has reached.
#[verifier::external_body]
pub(crate) fn position(reader: &EventReader) -> (offset: usize)
    ensures
        offset == offset_reached(*reader),
{
    reader.reader.buffer_position()
}

/// What `items` holds, as bytes and characters.
pub open spec fn items_view(items: Seq<Result<(Vec<u8>, Vec<u8>), String>>) -> Seq<
    Result<(Seq<u8>, Seq<u8>), Seq<char>>,
> {
    Seq::new(
        items.len(),
        |i: int|
            match items[i] {
                Ok(pair) => Ok((pair.0@, pair.1@)),
                Err(diagnostic) => Err(diagnostic@),
            },
    )
}

/// `BytesStart::attributes` on the bytes of a tag, walked to its end: the
/// attributes that `attribute_items` names. A malformed attribute, behind
/// which the walk ends, is handed on as its `Display` rendering.
#[verifier::external_body]
pub(crate) fn raw_attributes(content: &Vec<u8>, name_len: usize) -> (items: Vec<
    Result<(Vec<u8>, Vec<u8>), String>,
>)
    ensures
        items_view(items@) == attribute_items(content@, name_len),
{
    BytesStart::borrowed(content, name_len).attributes().map(
        |item|
            match item {
                Ok(attribute) => Ok((attribute.key.to_vec(), attribute.value.to_vec())),
                Err(e) => Err(e.to_string()),
            },
    ).collect()
}

/// What a decoding step gave, its strings taken as their characters.
pub open spec fn text_view(r: Result<String, String>) -> Result<Seq<char>, Seq<char>> {
    match r {
        Ok(text) => Ok(text@),
        Err(diagnostic) => Err(diagnostic@),
    }
}

/// `BytesText::unescape_and_decode` on escaped character data: the text that
/// `unescaped_text` names. A failure is handed on as its `Debug` rendering.
#[verifier::external_body]
pub(crate) fn unescape_text(reader: &EventReader, escaped: &Vec<u8>) -> (r: Result<String, String>)
    ensures
        text_view(r) == unescaped_text(escaped@),
{
    BytesText::from_escaped(escaped.as_slice()).unescape_and_decode(&reader.reader).map_err(
        |e| format!("{:?}", e),
    )
}

/// `Attribute::unescape_and_decode_value` on a raw attribute value: the text
/// that `unescaped_value` names. A failure is handed on as its `Display`
/// rendering.
#[verifier::external_body]
pub(crate) fn unescape_value(reader: &EventReader, raw: &Vec<u8>) -> (r: Result<String, String>)
    ensures
        text_view(r) == unescaped_value(raw@),
{
    let attribute = Attribute { key: &[], value: Cow::Borrowed(raw.as_slice()) };
    attribute.unescape_and_decode_value(&reader.reader).map_err(|e| e.to_string())
}

/// `std::str::from_utf8`: the text that `bytes` encode, if they are valid UTF-8.
#[verifier::external_body]
pub(crate) fn utf8_text(bytes: &Vec<u8>) -> (r: Option<String>)
    ensures
        r is Some == valid_utf8(bytes@),
        r is Some ==> r->0@ == decode_utf8(bytes@),
{
    std::str::from_utf8(bytes).ok().map(|text| text.to_owned())
}

/// `Reader::decode`, which reads UTF-8 where the tokenizer is built without
/// support for other encodings: the text that `bytes` encode, if they are
/// valid UTF-8.
#[verifier::external_body]
pub(crate) fn reader_text(reader: &EventReader, bytes: &Vec<u8>) -> (r: Option<String>)
    ensures
        r is Some == valid_utf8(bytes@),
        r is Some ==> r->0@ == decode_utf8(bytes@),
{
    reader.reader.decode(bytes).ok().map(|text| text.to_owned())
}

} // verus!
