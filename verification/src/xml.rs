//! The events of an XML text, read one after the other from a `quick_xml`
//! reader.
//!
//! How the reader splits a text into events is not described here: the
//! sequence of reads of a text has a name, `document_reads`, and the contracts
//! of the parser are stated over it.

use quick_xml::events::Event;
use quick_xml::Reader;
use vstd::prelude::*;

verus! {

/// `quick_xml::Reader`, of which nothing is known but what its wrappers say.
#[verifier::external_type_specification]
#[verifier::external_body]
#[verifier::reject_recursive_types(R)]
pub struct ExReader<R>(Reader<R>);

/// `quick_xml::events::Event`, of which nothing is known but what its
/// wrappers say.
#[verifier::external_type_specification]
#[verifier::external_body]
pub struct ExEvent<'a>(Event<'a>);

/// One attribute of an element: its name and its value, both as written.
#[derive(Debug, Clone, PartialEq, Eq)]
pub struct XmlAttribute {
    pub key: String,
    pub value: String,
}

/// The view of an [`XmlAttribute`].
pub struct AttributeView {
    pub key: Seq<char>,
    pub value: Seq<char>,
}

impl View for XmlAttribute {
    type V = AttributeView;

    open spec fn view(&self) -> AttributeView {
        AttributeView { key: self.key@, value: self.value@ }
    }
}

impl DeepView for XmlAttribute {
    type V = AttributeView;

    open spec fn deep_view(&self) -> AttributeView {
        self@
    }
}

/// What the parser is told about an XML text, piece by piece. An element
/// without content, `<a/>`, is a `Start` followed by an `End`.
#[derive(Debug, Clone, PartialEq, Eq)]
pub enum XmlEvent {
    /// An element opens. The name is as written; the attributes are those
    /// that are well formed, in the order of the text.
    Start { name: String, attributes: Vec<XmlAttribute> },
    /// An element closes.
    End { name: String },
    /// Character data, with entities resolved and without white space at
    /// either end.
    Text { content: String },
    /// Anything else: a comment, a declaration, a CDATA section.
    Other,
}

/// The view of an [`XmlEvent`].
pub enum XmlEventView {
    Start { name: Seq<char>, attributes: Seq<AttributeView> },
    End { name: Seq<char> },
    Text { content: Seq<char> },
    Other,
}

impl View for XmlEvent {
    type V = XmlEventView;

    open spec fn view(&self) -> XmlEventView {
        match self {
            XmlEvent::Start { name, attributes } => XmlEventView::Start {
                name: name@,
                attributes: attributes.deep_view(),
            },
            XmlEvent::End { name } => XmlEventView::End { name: name@ },
            XmlEvent::Text { content } => XmlEventView::Text { content: content@ },
            XmlEvent::Other => XmlEventView::Other,
        }
    }
}

impl DeepView for XmlEvent {
    type V = XmlEventView;

    open spec fn deep_view(&self) -> XmlEventView {
        self@
    }
}

/// What one read gives: an event, the end of the text, or a failure with its
/// description.
pub enum Read {
    Event(XmlEvent),
    Eof,
    Failure(String),
}

/// The view of a [`Read`].
pub enum ReadView {
    Event(XmlEventView),
    Eof,
    Failure(Seq<char>),
}

impl View for Read {
    type V = ReadView;

    open spec fn view(&self) -> ReadView {
        match self {
            Read::Event(event) => ReadView::Event(event@),
            Read::Eof => ReadView::Eof,
            Read::Failure(description) => ReadView::Failure(description@),
        }
    }
}

/// The sort of an event.
#[derive(Debug, Clone, Copy, PartialEq, Eq)]
pub enum EventKind {
    Start,
    End,
    Text,
    Eof,
    Other,
}

/// The reads that a reader over `xml` gives, up to and including the end of
/// the text or the first failure. The reader drops white space around
/// character data and reports an element without content as one that opens
/// and closes.
pub uninterp spec fn document_reads(xml: Seq<char>) -> Seq<ReadView>;

/// The reads that `reader` has still to give.
pub uninterp spec fn pending_reads(reader: Reader<&[u8]>) -> Seq<ReadView>;

/// What `event` holds.
pub uninterp spec fn event_view(event: Event) -> ReadView;

/// Whether `r` is the end of the text or a failure.
pub open spec fn is_last_read(r: ReadView) -> bool {
    r is Eof || r is Failure
}

/// Whether `reads` ends with the end of the text or a failure, and holds
/// neither before.
pub open spec fn reads_complete(reads: Seq<ReadView>) -> bool {
    &&& reads.len() > 0
    &&& is_last_read(reads.last())
    &&& forall|i: int| 0 <= i < reads.len() - 1 ==> !is_last_read(#[trigger] reads[i])
}

/// The sort of a read; a failure has the sort of events that are passed
/// over.
pub open spec fn kind_of(r: ReadView) -> EventKind {
    match r {
        ReadView::Event(XmlEventView::Start { .. }) => EventKind::Start,
        ReadView::Event(XmlEventView::End { .. }) => EventKind::End,
        ReadView::Event(XmlEventView::Text { .. }) => EventKind::Text,
        ReadView::Event(XmlEventView::Other) => EventKind::Other,
        ReadView::Eof => EventKind::Eof,
        ReadView::Failure(_) => EventKind::Other,
    }
}

/// The name of an element that opens or closes, or the character data.
pub open spec fn label_of(r: ReadView) -> Seq<char> {
    match r {
        ReadView::Event(XmlEventView::Start { name, .. }) => name,
        ReadView::Event(XmlEventView::End { name }) => name,
        ReadView::Event(XmlEventView::Text { content }) => content,
        _ => Seq::empty(),
    }
}

/// The attributes of an element that opens; no other read has any.
pub open spec fn attributes_of(r: ReadView) -> Seq<AttributeView> {
    match r {
        ReadView::Event(XmlEventView::Start { attributes, .. }) => attributes,
        _ => Seq::empty(),
    }
}

/// Makes a reader over `xml` with `Reader::from_str`, and sets it with
/// `Reader::trim_text` and `Reader::expand_empty_elements`. Its reads are
/// those of the text; they are finitely many and end with the end of the text
/// or with the first failure.
#[verifier::external_body]
pub(crate) fn open_reader<'a>(xml: &'a str) -> (reader: Reader<&'a [u8]>)
    ensures
        pending_reads(reader) == document_reads(xml@),
        reads_complete(pending_reads(reader)),
{
    let mut reader = Reader::from_str(xml);
    reader.trim_text(true);
    reader.expand_empty_elements(true);
    reader
}

/// Calls `Reader::read_event`. What comes back is the first pending read: an
/// event, or the error in the form that `Debug` gives it.
#[verifier::external_body]
pub(crate) fn read_event<'a>(reader: &mut Reader<&'a [u8]>) -> (r: Result<Event<'a>, String>)
    requires
        pending_reads(*old(reader)).len() > 0,
    ensures
        pending_reads(*final(reader)) == pending_reads(*old(reader)).drop_first(),
        r matches Ok(event) ==> pending_reads(*old(reader))[0] == event_view(event)
            && !(event_view(event) is Failure),
        r matches Err(description) ==> pending_reads(*old(reader))[0] == ReadView::Failure(
            description@,
        ),
{
    reader.read_event().map_err(|e| format!("{:?}", e))
}

/// Tells the variants of `Event` apart and hands out the name of the element
/// (`BytesStart::name`, `BytesEnd::name`) or the character data
/// (`BytesText::unescape`; empty where an entity cannot be resolved).
#[verifier::external_body]
pub(crate) fn event_label(event: &Event) -> (r: (EventKind, String))
    ensures
        r.0 == kind_of(event_view(*event)),
        r.1@ == label_of(event_view(*event)),
{
    match event {
        Event::Start(e) => (EventKind::Start, String::from_utf8_lossy(e.name().as_ref()).into_owned()),
        Event::End(e) => (EventKind::End, String::from_utf8_lossy(e.name().as_ref()).into_owned()),
        Event::Text(e) => (EventKind::Text, e.unescape().unwrap_or_default().into_owned()),
        Event::Eof => (EventKind::Eof, String::new()),
        _ => (EventKind::Other, String::new()),
    }
}

/// Calls `BytesStart::attributes` and hands out the attributes that it could
/// read, in order; an event that opens no element has none.
#[verifier::external_body]
pub(crate) fn event_attributes(event: &Event) -> (r: Vec<XmlAttribute>)
    ensures
        r.deep_view() == attributes_of(event_view(*event)),
{
    match event {
        Event::Start(e) => e.attributes().filter_map(|a| a.ok()).map(|a| XmlAttribute {
            key: String::from_utf8_lossy(a.key.as_ref()).into_owned(),
            value: String::from_utf8_lossy(&a.value).into_owned(),
        }).collect(),
        _ => Vec::new(),
    }
}

/// Reads the next event from `reader`.
pub(crate) fn read_next<'a>(reader: &mut Reader<&'a [u8]>) -> (r: Read)
    requires
        pending_reads(*old(reader)).len() > 0,
    ensures
        r@ == pending_reads(*old(reader))[0],
        pending_reads(*final(reader)) == pending_reads(*old(reader)).drop_first(),
{
    match read_event(reader) {
        Err(description) => Read::Failure(description),
        Ok(event) => {
            let (kind, label) = event_label(&event);
            match kind {
                EventKind::Start => {
                    let attributes = event_attributes(&event);
                    Read::Event(XmlEvent::Start { name: label, attributes })
                },
                EventKind::End => Read::Event(XmlEvent::End { name: label }),
                EventKind::Text => Read::Event(XmlEvent::Text { content: label }),
                EventKind::Eof => Read::Eof,
                EventKind::Other => Read::Event(XmlEvent::Other),
            }
        },
    }
}

} // verus!
