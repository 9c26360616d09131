//! The feed as a stream of XML events.
//!
//! The events come from `quick_xml`, one call for each. What the reader is going
//! to deliver is modelled as a sequence of `Tag`s with a cursor into it: the
//! contracts below say how each call moves the cursor and what it hands back.

use vstd::prelude::*;
use quick_xml::events::Event;
use quick_xml::name::QName;
use quick_xml::reader::Reader;

verus! {

/// `quick_xml`'s pull reader.
#[verifier::external_type_specification]
#[verifier::external_body]
#[verifier::reject_recursive_types(R)]
pub struct ExReader<R>(Reader<R>);

/// One event of a document, as far as the feed logic tells events apart.
pub enum Tag {
    /// A start tag, with the raw text that stands between it and the end tag that
    /// closes it (of no meaning where nothing closes it).
    Start { name: Seq<char>, inner: Seq<char> },
    /// An end tag.
    End { name: Seq<char> },
    /// Text, a comment, an empty element and whatever else is neither of the above.
    Other,
    /// The end of the document.
    Eof,
    /// A place where the document is not well formed.
    Malformed,
}

/// One event as the reader hands it out.
#[derive(Debug)]
pub enum XmlEvent {
    Start(String),
    End(String),
    Other,
    Eof,
    Malformed,
}

/// Whether a sequence of events ends a document properly: its last event, and no
/// other, is `Eof` or `Malformed`.
pub open spec fn ends_once(events: Seq<Tag>) -> bool {
    &&& events.len() > 0
    &&& events.last() is Eof || events.last() is Malformed
    &&& forall|i: int| 0 <= i < events.len() - 1 ==> !(events[i] is Eof || events[i] is Malformed)
}

/// Whether `event` is what the reader hands out for `tag`.
pub open spec fn shows(event: XmlEvent, tag: Tag) -> bool {
    match event {
        XmlEvent::Start(name) => tag is Start && tag->Start_name == name@,
        XmlEvent::End(name) => tag == (Tag::End { name: name@ }),
        XmlEvent::Other => tag is Other,
        XmlEvent::Eof => tag is Eof,
        XmlEvent::Malformed => tag is Malformed,
    }
}

/// Where the element ends whose content begins at `from`: the place of the first
/// end tag named `name` that no start tag of that name, met on the way, has
/// opened. `depth` counts the start tags of that name that are still open.
pub open spec fn closing(events: Seq<Tag>, from: int, name: Seq<char>, depth: nat) -> Option<int>
    decreases events.len() - from,
{
    if from < 0 || from >= events.len() {
        None
    } else {
        match events[from] {
            Tag::Start { name: other, .. } => closing(
                events,
                from + 1,
                name,
                if other == name {
                    depth + 1
                } else {
                    depth
                },
            ),
            Tag::End { name: other } => if other != name {
                closing(events, from + 1, name, depth)
            } else if depth == 0 {
                Some(from)
            } else {
                closing(events, from + 1, name, (depth - 1) as nat)
            },
            Tag::Other => closing(events, from + 1, name, depth),
            Tag::Eof | Tag::Malformed => None,
        }
    }
}

/// The events of the document `xml`, up to and with the first `Eof` or
/// `Malformed`, as a reader delivers them that trims the white space around text
/// (`trim`) or leaves it.
pub uninterp spec fn document_events(xml: Seq<char>, trim: bool) -> Seq<Tag>;

/// The document that `reader` reads.
pub uninterp spec fn reader_source(reader: Reader<&[u8]>) -> Seq<char>;

/// Whether `reader` trims the white space around text.
pub uninterp spec fn reader_trims(reader: Reader<&[u8]>) -> bool;

/// How many of its events `reader` has delivered or skipped.
pub uninterp spec fn reader_cursor(reader: Reader<&[u8]>) -> nat;

/// The events of the document that `reader` reads, as it delivers them.
pub open spec fn reader_events(reader: Reader<&[u8]>) -> Seq<Tag> {
    document_events(reader_source(reader), reader_trims(reader))
}

/// Opens a reader on a document.
///
/// Wraps `Reader::from_str`. The new reader stands before the first event of the
/// document and does not trim; the events of a document end once.
#[verifier::external_body]
pub(crate) fn open(xml: &str) -> (reader: Reader<&[u8]>)
    ensures
        reader_source(reader) == xml@,
        !reader_trims(reader),
        reader_cursor(reader) == 0,
        ends_once(document_events(reader_source(reader), reader_trims(reader))),
{
    Reader::from_str(xml)
}

/// Tells a reader that has delivered nothing yet whether to trim the white space
/// around text.
///
/// Wraps `Config::trim_text`, reached through `Reader::config_mut`. The reader
/// stays before the first event of its document, whose events, delivered in the
/// new way, end once as well.
#[verifier::external_body]
pub(crate) fn trim_text(reader: &mut Reader<&[u8]>, trim: bool)
    requires
        reader_cursor(*old(reader)) == 0,
    ensures
        reader_source(*final(reader)) == reader_source(*old(reader)),
        reader_trims(*final(reader)) == trim,
        reader_cursor(*final(reader)) == 0,
        ends_once(document_events(reader_source(*final(reader)), reader_trims(*final(reader)))),
{
    reader.config_mut().trim_text(trim)
}

/// Reads the next event.
///
/// Wraps `Reader::read_event`. While events are left, the call hands out the event
/// under the cursor and moves the cursor past it; at `Eof` the cursor stays.
#[verifier::external_body]
pub(crate) fn next_event(reader: &mut Reader<&[u8]>) -> (event: XmlEvent)
    ensures
        reader_source(*final(reader)) == reader_source(*old(reader)),
        reader_trims(*final(reader)) == reader_trims(*old(reader)),
        reader_cursor(*old(reader)) < reader_events(*old(reader)).len() ==> {
            &&& shows(event, reader_events(*old(reader))[reader_cursor(*old(reader)) as int])
            &&& reader_cursor(*final(reader)) == if event is Eof {
                reader_cursor(*old(reader))
            } else {
                reader_cursor(*old(reader)) + 1
            }
        },
{
    match reader.read_event() {
        Ok(Event::Start(e)) => XmlEvent::Start(String::from_utf8_lossy(e.name().as_ref()).into_owned()),
        Ok(Event::End(e)) => XmlEvent::End(String::from_utf8_lossy(e.name().as_ref()).into_owned()),
        Ok(Event::Eof) => XmlEvent::Eof,
        Ok(_) => XmlEvent::Other,
        Err(_) => XmlEvent::Malformed,
    }
}

/// Reads the raw text up to the end tag that closes the element `end`, and skips
/// that end tag.
///
/// Wraps `Reader::read_text`. The call succeeds where `closing` finds the end tag
/// among the events that are left, and then leaves the cursor behind it. Called
/// right after the start tag of `end` was handed out, it returns that tag's
/// `inner` text.
#[verifier::external_body]
pub(crate) fn read_text(reader: &mut Reader<&[u8]>, end: &str) -> (text: Option<String>)
    ensures
        reader_source(*final(reader)) == reader_source(*old(reader)),
        reader_trims(*final(reader)) == reader_trims(*old(reader)),
        reader_cursor(*old(reader)) < reader_events(*old(reader)).len() ==> (
        match closing(reader_events(*old(reader)), reader_cursor(*old(reader)) as int, end@, 0) {
            Some(at) => {
                &&& text is Some
                &&& reader_cursor(*final(reader)) == at + 1
                &&& reader_cursor(*old(reader)) > 0 ==> (
                match reader_events(*old(reader))[reader_cursor(*old(reader)) - 1] {
                    Tag::Start { name, inner } => name == end@ ==> text->0@ == inner,
                    _ => true,
                })
            },
            None => text is None,
        }),
{
    match reader.read_text(QName(end.as_bytes())) {
        Ok(text) => Some(text.into_owned()),
        Err(_) => None,
    }
}

} // verus!
