//! The events of an XML document as plain values, read one at a time by a
//! `quick_xml` reader that is only ever driven from here.

use vstd::prelude::*;

use quick_xml::events::Event;
use quick_xml::name::QName;

verus! {

/// The kinds of reader events the build reader tells apart.
#[derive(Debug, Clone, Copy, PartialEq, Eq, Structural)]
pub enum XmlKind {
    Start,
    Empty,
    End,
    Text,
    CData,
    Eof,
    Other,
}

/// One reader event as plain values: its kind, the element name (for
/// start, empty and end tags) and its raw content (the tag with its
/// attributes, the end tag's name, or the undecoded text).
pub struct XmlToken {
    pub kind: XmlKind,
    pub name: Vec<u8>,
    pub content: Vec<u8>,
}

pub struct XmlTokenView {
    pub kind: XmlKind,
    pub name: Seq<u8>,
    pub content: Seq<u8>,
}

impl View for XmlToken {
    type V = XmlTokenView;

    open spec fn view(&self) -> XmlTokenView {
        XmlTokenView { kind: self.kind, name: self.name@, content: self.content@ }
    }
}

/// A token whose name is the start of its content, as in every token a
/// reader gives.
pub open spec fn token_ok(t: XmlTokenView) -> bool {
    t.name.len() <= t.content.len() && t.content.take(t.name.len() as int) == t.name
}

#[verifier::external_type_specification]
#[verifier::external_body]
#[verifier::reject_recursive_types(R)]
pub struct ExXmlReader<R>(quick_xml::reader::Reader<R>);

/// The `k`-th event (counting from 0) that a `quick_xml` reader made by
/// `Reader::from_str` with `trim_text(true)` reads from the document `xml`,
/// or the message of the error it reads there.
pub uninterp spec fn xml_event_at(xml: Seq<char>, k: nat) -> Result<XmlTokenView, Seq<char>>;

/// A reader over one document, with the document and the number of events
/// read so far. Its fields are private to this module, whose only
/// functions are `new` and `next`: every value of it is a reader made from
/// `xml` that has read `count` events.
pub struct XmlEvents<'a> {
    reader: quick_xml::reader::Reader<&'a [u8]>,
    xml: Ghost<Seq<char>>,
    count: Ghost<nat>,
}

impl<'a> View for XmlEvents<'a> {
    type V = (Seq<char>, nat);

    closed spec fn view(&self) -> (Seq<char>, nat) {
        (self.xml@, self.count@)
    }
}

/// `quick_xml::reader::Reader::from_str` with `trim_text(true)`. Nothing is
/// stated of the reader itself; `XmlEvents::next` says what it reads.
#[verifier::external_body]
fn xml_reader<'a>(xml: &'a str) -> (r: quick_xml::reader::Reader<&'a [u8]>) {
    let mut reader = quick_xml::reader::Reader::from_str(xml);
    reader.config_mut().trim_text(true);
    reader
}

impl<'a> XmlEvents<'a> {
    /// A reader at the start of `xml`.
    pub fn new(xml: &'a str) -> (r: Self)
        ensures
            r@ == (xml@, 0nat),
    {
        XmlEvents { reader: xml_reader(xml), xml: Ghost(xml@), count: Ghost(0nat) }
    }

    /// `Reader::read_event`, the event turned into a token: its kind, the
    /// tag's name (`BytesStart::name`, `BytesEnd::name`; empty for other
    /// events) and its bytes (`Event`'s `Deref`); an error becomes its
    /// message. Stated: the outcome is the document's next event by the
    /// name `xml_event_at`, and a token's name is the start of its bytes
    /// (a start tag's name is the head of its buffer, an end tag's bytes
    /// are its name).
    #[verifier::external_body]
    pub(crate) fn next(&mut self) -> (r: Result<XmlToken, String>)
        ensures
            final(self)@ == (old(self)@.0, old(self)@.1 + 1),
            (match r {
                Ok(t) => xml_event_at(old(self)@.0, old(self)@.1) == Ok::<XmlTokenView, Seq<char>>(t@)
                    && token_ok(t@),
                Err(m) => xml_event_at(old(self)@.0, old(self)@.1) == Err::<XmlTokenView, Seq<char>>(m@),
            }),
    {
        match self.reader.read_event() {
            Ok(ev) => {
                let (kind, name) = match &ev {
                    Event::Start(t) => (XmlKind::Start, t.name()),
                    Event::Empty(t) => (XmlKind::Empty, t.name()),
                    Event::End(t) => (XmlKind::End, t.name()),
                    Event::Text(_) => (XmlKind::Text, QName(b"")),
                    Event::CData(_) => (XmlKind::CData, QName(b"")),
                    Event::Eof => (XmlKind::Eof, QName(b"")),
                    _ => (XmlKind::Other, QName(b"")),
                };
                Ok(XmlToken { kind, name: name.as_ref().to_vec(), content: ev.to_vec() })
            },
            Err(e) => Err(e.to_string()),
        }
    }
}

} // verus!
