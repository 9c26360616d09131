//! One pass over a feed document.

use vstd::prelude::*;
use crate::feed::{
    after, found, lemma_after_nothing, scan, step, ElementView, FeedElement, ParseError, ScanEnd,
    Scanned, Scanner,
};
use crate::record::{record_views, ExtractedRecord, RecordView};
use crate::text::{equal, to_chars};
use crate::xml::{
    closing, document_events, ends_once, next_event, open, read_text, reader_cursor,
    reader_events, trim_text, Tag, XmlEvent,
};

verus! {

/// What one pass over a feed yields.
#[derive(Debug)]
pub struct FeedScan {
    /// The records of the items that are new, in document order.
    pub records: Vec<ExtractedRecord>,
    /// How the pass ended.
    pub end: ScanEnd,
    /// The cutoff for the next pass.
    pub new_cutoff: i64,
}

/// Whether an element of this name belongs to a feed item.
pub open spec fn is_item_name(name: Seq<char>) -> bool {
    name == "published"@ || name == "title"@ || name == "content"@
}

/// The feed element named `name` with the raw text `inner`.
pub open spec fn element_of(name: Seq<char>, inner: Seq<char>) -> ElementView {
    if name == "published"@ {
        ElementView::Published(inner)
    } else if name == "title"@ {
        ElementView::Title(inner)
    } else {
        ElementView::Content(inner)
    }
}

/// The feed elements of a document, in document order, from the event at `from`
/// on. An element reaches from its start tag to the end tag that closes it, and
/// what stands inside it is its text, not a further element. Where the document
/// is malformed, or an element is never closed, the sequence ends with `Broken`.
pub open spec fn elements(events: Seq<Tag>, from: int) -> Seq<ElementView>
    decreases events.len() - from,
{
    if from < 0 || from >= events.len() {
        Seq::empty()
    } else {
        match events[from] {
            Tag::Eof => Seq::empty(),
            Tag::Malformed => seq![ElementView::Broken],
            Tag::Start { name, inner } => if is_item_name(name) {
                match closing(events, from + 1, name, 0) {
                    Some(end) => {
                        proof {
                            lemma_closing_place(events, from + 1, name, 0);
                        }
                        seq![element_of(name, inner)] + elements(events, end + 1)
                    },
                    None => seq![ElementView::Broken],
                }
            } else {
                elements(events, from + 1)
            },
            _ => elements(events, from + 1),
        }
    }
}

/// The end tag that `closing` finds stands at or after the place where the
/// search began.
pub proof fn lemma_closing_place(events: Seq<Tag>, from: int, name: Seq<char>, depth: nat)
    ensures
        closing(events, from, name, depth) matches Some(at) ==> from <= at < events.len()
            && events[at] is End,
    decreases events.len() - from,
{
    if 0 <= from < events.len() {
        match events[from] {
            Tag::Start { name: other, .. } => {
                lemma_closing_place(
                    events,
                    from + 1,
                    name,
                    if other == name {
                        depth + 1
                    } else {
                        depth
                    },
                );
            },
            Tag::End { name: other } => {
                if other != name {
                    lemma_closing_place(events, from + 1, name, depth);
                } else if depth > 0 {
                    lemma_closing_place(events, from + 1, name, (depth - 1) as nat);
                }
            },
            Tag::Other => {
                lemma_closing_place(events, from + 1, name, depth);
            },
            _ => {},
        }
    }
}

/// Putting records before a walk twice is putting their concatenation before it.
proof fn lemma_after_after(a: Seq<RecordView>, b: Seq<RecordView>, rest: Result<Scanned, ParseError>)
    ensures
        after(a, after(b, rest)) == after(a + b, rest),
{
    if let Ok(scanned) = rest {
        assert(a + (b + scanned.records) =~= (a + b) + scanned.records);
    }
}

/// Walks the feed document `feed` and collects the records of its new items.
///
/// The elements are taken in document order. The first one published before
/// `last_updated` ends the pass, and nothing behind it is looked at. Malformed
/// XML and an unreadable published time fail the pass if it gets that far. A
/// content block that yields no record is passed over. `now` becomes the new
/// cutoff.
pub fn parse_xml(feed: &str, last_updated: i64, now: i64) -> (out: Result<FeedScan, ParseError>)
    ensures
        match scan(elements(document_events(feed@, true), 0), false, last_updated) {
            Ok(scanned) => out matches Ok(pass) && record_views(pass.records@) == scanned.records
                && pass.end == scanned.end && pass.new_cutoff == now,
            Err(error) => out == Err::<FeedScan, ParseError>(error),
        },
{
    let mut reader = open(feed);
    trim_text(&mut reader, true);
    let mut scanner = Scanner::new();
    let published = to_chars("published");
    let title = to_chars("title");
    let content = to_chars("content");
    let ghost events = document_events(feed@, true);
    let ghost whole = scan(elements(events, 0), false, last_updated);
    proof {
        lemma_after_nothing(whole);
    }
    loop
        invariant
            published@ == "published"@,
            title@ == "title"@,
            content@ == "content"@,
            events == document_events(feed@, true),
            whole == scan(elements(events, 0), false, last_updated),
            reader_events(reader) == events,
            ends_once(events),
            reader_cursor(reader) < events.len(),
            whole == after(
                scanner.records(),
                scan(elements(events, reader_cursor(reader) as int), scanner.armed(), last_updated),
            ),
        decreases events.len() - reader_cursor(reader),
    {
        let ghost at = reader_cursor(reader) as int;
        let ghost so_far = scanner.records();
        let ghost armed = scanner.armed();
        let event = next_event(&mut reader);
        match event {
            XmlEvent::Eof => {
                proof {
                    lemma_after_nothing(whole);
                    assert(so_far + Seq::<RecordView>::empty() =~= so_far);
                }
                return Ok(
                    FeedScan {
                        records: scanner.finish(),
                        end: ScanEnd::EndOfInput,
                        new_cutoff: now,
                    },
                );
            },
            XmlEvent::Malformed => {
                return Err(ParseError::Malformed);
            },
            XmlEvent::Start(name) => {
                let chars = to_chars(name.as_str());
                let element = if equal(&chars, &published) || equal(&chars, &title) || equal(
                    &chars,
                    &content,
                ) {
                    let ghost inner = events[at]->Start_inner;
                    let text = match read_text(&mut reader, name.as_str()) {
                        Some(text) => text,
                        None => {
                            return Err(ParseError::Malformed);
                        },
                    };
                    proof {
                        lemma_closing_place(events, at + 1, name@, 0);
                    }
                    let element = if equal(&chars, &published) {
                        FeedElement::Published(text)
                    } else if equal(&chars, &title) {
                        FeedElement::Title(text)
                    } else {
                        FeedElement::Content(text)
                    };
                    assert(element@ == element_of(name@, inner));
                    element
                } else {
                    continue ;
                };
                let ghost rest = elements(events, reader_cursor(reader) as int);
                assert(elements(events, at) == seq![element@] + rest);
                assert((seq![element@] + rest).drop_first() =~= rest);
                match scanner.visit(&element, last_updated) {
                    Err(error) => {
                        return Err(error);
                    },
                    Ok(true) => {
                        proof {
                            assert(so_far + Seq::<RecordView>::empty() =~= so_far);
                        }
                        return Ok(
                            FeedScan {
                                records: scanner.finish(),
                                end: ScanEnd::Stopped,
                                new_cutoff: now,
                            },
                        );
                    },
                    Ok(false) => {
                        proof {
                            let next = step(armed, element@, last_updated);
                            lemma_after_after(
                                so_far,
                                found(next->Next_record),
                                scan(rest, scanner.armed(), last_updated),
                            );
                        }
                    },
                }
            },
            _ => {},
        }
    }
}

} // verus!
