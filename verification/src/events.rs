//! Structural events of the registry document, and the trusted boundary
//! to the XML pull parser that produces them.
//!
//! The walker in `registry` is verified over a sequence of `Event`
//! values, whatever that sequence holds. The decode itself is a
//! deterministic function of the document bytes alone (a pull parser
//! over a cursor of the bytes, with a fixed configuration), so its
//! result carries the name `events_of`; the trusted pieces are the
//! declaration of the reader type, the two helpers that create it and
//! pull one event, and `read_events`, whose contract ties the decoded
//! sequence to that name.

use vstd::prelude::*;

verus! {

/// One attribute of a markup element: its local name and its value.
#[derive(Debug)]
pub struct Attribute {
    pub name: String,
    pub value: String,
}

/// One structural event of the markup document, reduced to what the
/// registry walker reads: element names are local names; attributes keep
/// name and value. Text, comments and other markup collapse to `Other`.
#[derive(Debug)]
pub enum Event {
    StartDocument,
    EndDocument,
    StartElement { name: String, attributes: Vec<Attribute> },
    EndElement { name: String },
    /// The underlying reader failed: malformed markup or a short stream.
    ReadError,
    Other,
}

/// Holds `xml::reader::EventReader`, the pull parser of the `xml`
/// crate, opaquely: Verus refuses the reader type's own declaration (its
/// `Read` bound), so the whole struct is hidden from it instead.
#[verifier::external_body]
pub struct EventSource {
    reader: xml::reader::EventReader<std::io::Cursor<Vec<u8>>>,
}

/// Relies on `xml::reader::EventReader::new_with_config`: builds a pull
/// parser over a copy of the given bytes, with comments ignored.
#[verifier::external_body]
pub(crate) fn new_event_source(document: &Vec<u8>) -> EventSource {
    EventSource {
        reader: xml::reader::EventReader::new_with_config(
            std::io::Cursor::new(document.clone()),
            xml::ParserConfig::new().ignore_comments(true),
        ),
    }
}

/// Relies on `xml::reader::EventReader::next`: pulls the next event from
/// the stream. The conversion keeps local element names and the
/// attributes' names and values; every other event kind collapses to
/// `Other`, and a reader error to `ReadError`. Nothing is assumed of the
/// result: the walker is verified for every event that can come back.
#[verifier::external_body]
pub(crate) fn next_event(source: &mut EventSource) -> Event {
    match source.reader.next() {
        Ok(xml::reader::XmlEvent::StartDocument { .. }) => Event::StartDocument,
        Ok(xml::reader::XmlEvent::EndDocument) => Event::EndDocument,
        Ok(xml::reader::XmlEvent::StartElement { name, attributes, .. }) => Event::StartElement {
            name: name.local_name,
            attributes: attributes.into_iter().map(
                |a| Attribute { name: a.name.local_name, value: a.value },
            ).collect(),
        },
        Ok(xml::reader::XmlEvent::EndElement { name }) => Event::EndElement {
            name: name.local_name,
        },
        Ok(_) => Event::Other,
        Err(_) => Event::ReadError,
    }
}

/// The structural events that decoding a document yields, in order.
/// The decode is a function of the bytes alone: the parser reads a
/// cursor over a copy of them, its configuration is fixed, and nothing
/// else (time, environment, machine) enters. No contract says what the
/// name is on given values; the walker is verified for every sequence.
pub uninterp spec fn events_of(document: Seq<u8>) -> Seq<Event>;

/// Relies on `xml::reader::EventReader::next`: pulls events until the
/// document ends or the reader fails, converting each through
/// `next_event`. The loop terminates because the reader, per its
/// documentation, keeps returning the same event once it has yielded
/// `EndDocument` or an error. The resulting sequence is `events_of` the
/// document bytes.
#[verifier::external_body]
pub(crate) fn read_events(document: &Vec<u8>) -> (events: Vec<Event>)
    ensures
        events@ == events_of(document@),
{
    let mut reader = new_event_source(document);
    let mut events: Vec<Event> = Vec::new();
    loop {
        let e = next_event(&mut reader);
        match e {
            Event::EndDocument | Event::ReadError => {
                events.push(e);
                return events;
            },
            _ => {
                events.push(e);
            },
        }
    }
}

} // verus!
