//! The XML reader of a document, with the calls made on it.
//!
//! `quick_xml` reads a document held in memory as a function of its bytes
//! and of the calls made on the reader before: each reply is named here
//! over those. The reader keeps the bytes and the calls as ghost values;
//! only the functions of this module make calls, and each records the call
//! it makes, so that the replies it states are those of its calls.

use vstd::prelude::*;
use quick_xml::Error as XmlError;
use quick_xml::Reader as XmlReader;
use quick_xml::events::Event as XmlEvent;
use quick_xml::events::BytesStart;
use crate::fibex_xml::{XmlAttribute, XmlTag, XmlToken, XmlTokenV};

verus! {

/// The `quick_xml` reader of a document, held opaque: its declaration
/// carries a bound on `std::io::BufRead` that cannot be declared.
#[verifier::external_body]
pub struct XmlCursor<'a> {
    reader: XmlReader<&'a [u8]>,
}

/// The token that `quick_xml::Reader::read_event` gives, by its view
/// (`None` for an error), on a reader over `input` after the calls `calls`
/// (`None` for `read_event`, `Some(name)` for `read_text` up to the end tag
/// `name`).
pub uninterp spec fn xml_next_reply(input: Seq<u8>, calls: Seq<Option<Seq<u8>>>) -> Option<XmlTokenV>;

/// The text that `quick_xml::Reader::read_text` gives up to the end tag
/// `name` (`None` for an error), on a reader over `input` after the calls
/// `calls`.
pub uninterp spec fn xml_text_reply(
    input: Seq<u8>,
    calls: Seq<Option<Seq<u8>>>,
    name: Seq<u8>,
) -> Option<Seq<char>>;

/// How far `quick_xml::Reader::buffer_position` says a reader over `input`
/// has read after the calls `calls`.
pub uninterp spec fn xml_position_at(input: Seq<u8>, calls: Seq<Option<Seq<u8>>>) -> nat;

/// The XML reader of a document: the `quick_xml` reader, the bytes it
/// reads and the calls made on it, in order.
pub struct XmlSource<'a> {
    cursor: XmlCursor<'a>,
    input: Ghost<Seq<u8>>,
    calls: Ghost<Seq<Option<Seq<u8>>>>,
}

impl<'a> View for XmlSource<'a> {
    type V = (Seq<u8>, Seq<Option<Seq<u8>>>);

    /// The bytes read and the calls made.
    closed spec fn view(&self) -> (Seq<u8>, Seq<Option<Seq<u8>>>) {
        (self.input@, self.calls@)
    }
}

/// `quick_xml::Reader::from_reader` on the bytes of a document.
#[verifier::external_body]
fn xml_reader<'a>(input: &'a [u8]) -> (r: XmlCursor<'a>) {
    XmlCursor { reader: XmlReader::from_reader(input) }
}

/// `quick_xml::Reader::buffer_position`: how far the reader has read, as
/// named by `xml_position_at`.
#[verifier::external_body]
fn xml_position<'a>(source: &XmlSource<'a>) -> (r: usize)
    ensures
        r == xml_position_at(source@.0, source@.1),
{
    source.cursor.reader.buffer_position()
}

/// `quick_xml::Reader::read_text`: the text of the element whose start tag
/// was read last, up to its end tag named `name`, as named by
/// `xml_text_reply`.
#[verifier::external_body]
fn xml_read_text<'a>(source: &mut XmlSource<'a>, name: &Vec<u8>, buffer: &mut Vec<u8>) -> (r: Result<String, XmlError>)
    ensures
        final(source)@ == old(source)@,
        match r {
            Ok(s) => xml_text_reply(old(source)@.0, old(source)@.1, name@) == Some(s@),
            Err(_) => xml_text_reply(old(source)@.0, old(source)@.1, name@) is None,
        },
{
    source.cursor.reader.read_text(name.as_slice(), buffer)
}

/// `quick_xml::Reader::read_event`: the next token of the document, with
/// the names and attributes of a tag decoded as UTF-8 (by
/// `String::from_utf8_lossy`, so that ASCII names compare as they are), as
/// named by `xml_next_reply`.
#[verifier::external_body]
fn xml_next<'a>(source: &mut XmlSource<'a>, buffer: &mut Vec<u8>) -> (r: Result<XmlToken, XmlError>)
    ensures
        final(source)@ == old(source)@,
        match r {
            Ok(t) => xml_next_reply(old(source)@.0, old(source)@.1) == Some(t@),
            Err(_) => xml_next_reply(old(source)@.0, old(source)@.1) is None,
        },
{
    match source.cursor.reader.read_event(buffer) {
        Ok(XmlEvent::Start(e)) => Ok(XmlToken::Start(xml_tag(&source.cursor, &e))),
        Ok(XmlEvent::Empty(e)) => Ok(XmlToken::Empty(xml_tag(&source.cursor, &e))),
        Ok(XmlEvent::End(e)) => Ok(XmlToken::End(String::from_utf8_lossy(e.local_name()).into_owned())),
        Ok(XmlEvent::Eof) => Ok(XmlToken::Eof),
        Ok(_) => Ok(XmlToken::Other),
        Err(e) => Err(e),
    }
}

/// The tag of a `quick_xml` start event: its name, its local name and its
/// attributes (`BytesStart::attributes`, each value by
/// `Attribute::unescape_and_decode_value`), up to the first malformed one.
#[verifier::external_body]
fn xml_tag<'a, 'b>(cursor: &XmlCursor<'a>, e: &BytesStart<'b>) -> (r: XmlTag) {
    let mut tag = XmlTag { name: e.name().to_vec(), local: String::from_utf8_lossy(e.local_name()).into_owned(), attributes: Vec::new(), malformed: None };
    for a in e.attributes() {
        match a {
            Ok(a) => tag.attributes.push(XmlAttribute { key: String::from_utf8_lossy(a.key).into_owned(), value: a.unescape_and_decode_value(&cursor.reader) }),
            Err(err) => { tag.malformed = Some(err); break; }
        }
    }
    tag
}

impl<'a> XmlSource<'a> {
    /// The bytes of the document.
    pub closed spec fn input(&self) -> Seq<u8> {
        self.input@
    }

    /// The calls made on the reader, in order.
    pub closed spec fn calls(&self) -> Seq<Option<Seq<u8>>> {
        self.calls@
    }

    /// A reader of `input` on which no call has been made.
    pub fn new(input: &'a [u8]) -> (r: Self)
        ensures
            r.input() == input@,
            r.calls() == Seq::<Option<Seq<u8>>>::empty(),
    {
        XmlSource { cursor: xml_reader(input), input: Ghost(input@), calls: Ghost(Seq::empty()) }
    }

    /// How far the reader has read, in bytes.
    pub fn position(&self) -> (r: usize)
        ensures
            r == xml_position_at(self.input(), self.calls()),
    {
        xml_position(self)
    }

    /// The next token, which the call is recorded with.
    pub fn next(&mut self, buffer: &mut Vec<u8>) -> (r: Result<XmlToken, XmlError>)
        ensures
            final(self).input() == old(self).input(),
            final(self).calls() == old(self).calls().push(None),
            match r {
                Ok(t) => xml_next_reply(old(self).input(), old(self).calls()) == Some(t@),
                Err(_) => xml_next_reply(old(self).input(), old(self).calls()) is None,
            },
    {
        let r = xml_next(self, buffer);
        self.calls = Ghost(self.calls@.push(None));
        r
    }

    /// The text of the element whose start tag was read last, up to its
    /// end tag `name`, which the call is recorded with.
    pub fn read_text(&mut self, name: &Vec<u8>, buffer: &mut Vec<u8>) -> (r: Result<String, XmlError>)
        ensures
            final(self).input() == old(self).input(),
            final(self).calls() == old(self).calls().push(Some(name@)),
            match r {
                Ok(s) => xml_text_reply(old(self).input(), old(self).calls(), name@) == Some(s@),
                Err(_) => xml_text_reply(old(self).input(), old(self).calls(), name@) is None,
            },
    {
        let r = xml_read_text(self, name, buffer);
        self.calls = Ghost(self.calls@.push(Some(name@)));
        r
    }
}

} // verus!
