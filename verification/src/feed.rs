//! The walk over the items of a feed.
//!
//! A feed is a run of `published`, `title` and `content` elements. The walk takes
//! them in document order. A published time before the cutoff ends it: what
//! follows has been seen by an earlier walk. A title that names a kind of message
//! nobody wants arms a flag, and the next content block is then passed over.
//! Every other content block is rendered and searched for a record.

use vstd::prelude::*;
use chrono::DateTime;
use crate::extract::{extract_record, extraction};
use crate::normalize::{decode_entities, filter_lines, kept_lines, markdown_of, normalize, unescaped};
use crate::record::{record_views, ExtractedRecord, ExtractionError, RecordView};
use crate::text::{contains, includes, lowered, to_chars, to_lower};

verus! {

/// Why a feed cannot be walked to its end.
#[derive(Clone, Copy, Debug, PartialEq, Eq, Structural)]
pub enum ParseError {
    /// The XML is not well formed.
    Malformed,
    /// A published time is no RFC 3339 date and time.
    BadTimestamp,
}

/// How a walk ended.
#[derive(Clone, Copy, Debug, PartialEq, Eq, Structural)]
pub enum ScanEnd {
    /// At an item that was published before the cutoff.
    Stopped,
    /// At the end of the feed.
    EndOfInput,
}

/// One element of a feed, with its raw text.
#[derive(Clone, Debug, PartialEq, Eq)]
pub enum FeedElement {
    Published(String),
    Title(String),
    Content(String),
}

/// A `FeedElement` with its text as a character sequence, or the place where the
/// feed breaks off.
pub enum ElementView {
    Published(Seq<char>),
    Title(Seq<char>),
    Content(Seq<char>),
    Broken,
}

impl View for FeedElement {
    type V = ElementView;

    open spec fn view(&self) -> ElementView {
        match self {
            FeedElement::Published(text) => ElementView::Published(text@),
            FeedElement::Title(text) => ElementView::Title(text@),
            FeedElement::Content(text) => ElementView::Content(text@),
        }
    }
}

/// The seconds since the Unix epoch that the RFC 3339 date and time `text` stands
/// for; nothing where `text` is no such date and time.
pub uninterp spec fn rfc3339_seconds(text: Seq<char>) -> Option<i64>;

/// Reads an RFC 3339 date and time.
///
/// Wraps `DateTime::parse_from_rfc3339`, and `DateTime::timestamp` for the whole
/// seconds of what it parsed. The result depends on the text alone and is named
/// by `rfc3339_seconds`.
#[verifier::external_body]
fn parse_rfc3339(text: &str) -> (seconds: Option<i64>)
    ensures
        seconds == rfc3339_seconds(text@),
{
    match DateTime::parse_from_rfc3339(text) {
        Ok(moment) => Some(moment.timestamp()),
        Err(_) => None,
    }
}

/// Whether a title announces a message that is to be passed over.
pub open spec fn suppresses(title: Seq<char>) -> bool {
    ||| contains(lowered(title), "submission received"@)
    ||| contains(lowered(title), "new content"@)
    ||| contains(lowered(title), "new items"@)
    ||| contains(lowered(title), "due soon"@)
}

/// Decides `suppresses`.
pub fn is_suppressing(title: &str) -> (out: bool)
    ensures
        out == suppresses(title@),
{
    let lower = to_lower(&to_chars(title));
    includes(&lower, &to_chars("submission received")) || includes(&lower, &to_chars("new content"))
        || includes(&lower, &to_chars("new items")) || includes(&lower, &to_chars("due soon"))
}

/// Whether an item published at `published` has been seen by the walk that set
/// `cutoff`.
pub fn cutoff_reached(published: i64, cutoff: i64) -> (out: bool)
    ensures
        out == (published < cutoff),
{
    published < cutoff
}

/// The record of a content block with the raw text `raw`, if it has one.
pub open spec fn record_of(raw: Seq<char>) -> Option<RecordView> {
    match extraction(kept_lines(markdown_of(unescaped(raw), false))) {
        Ok(record) => Some(record),
        Err(_) => None,
    }
}

/// Searches rendered markdown for a record.
pub fn record_from_markdown(markdown: &str) -> (out: Result<ExtractedRecord, ExtractionError>)
    ensures
        match extraction(kept_lines(markdown@)) {
            Ok(record) => out matches Ok(found) && found@ == record,
            Err(error) => out == Err::<ExtractedRecord, ExtractionError>(error),
        },
{
    extract_record(&filter_lines(markdown))
}

/// Unescapes and renders the raw text of a content block and searches it for a
/// record.
pub fn record_from_content(raw: &str) -> (out: Option<ExtractedRecord>)
    ensures
        match record_of(raw@) {
            Some(record) => out matches Some(found) && found@ == record,
            None => out is None,
        },
{
    let html = decode_entities(raw);
    match extract_record(&normalize(html.as_str())) {
        Ok(found) => Some(found),
        Err(_) => None,
    }
}

/// What the walk does at one element.
pub enum Step {
    /// It fails.
    Fail(ParseError),
    /// It ends: the element was published before the cutoff.
    Halt,
    /// It goes on, with the flag as given and perhaps one more record.
    Next { armed: bool, record: Option<RecordView> },
}

/// What the walk does at `element` when its flag is `armed`.
pub open spec fn step(armed: bool, element: ElementView, cutoff: i64) -> Step {
    match element {
        ElementView::Broken => Step::Fail(ParseError::Malformed),
        ElementView::Published(text) => match rfc3339_seconds(text) {
            None => Step::Fail(ParseError::BadTimestamp),
            Some(published) => if published < cutoff {
                Step::Halt
            } else {
                Step::Next { armed, record: None }
            },
        },
        ElementView::Title(text) => Step::Next { armed: armed || suppresses(text), record: None },
        ElementView::Content(raw) => Step::Next {
            armed: false,
            record: if armed {
                None
            } else {
                record_of(raw)
            },
        },
    }
}

/// The records of a walk and how it ended.
pub struct Scanned {
    pub records: Seq<RecordView>,
    pub end: ScanEnd,
}

/// `rest` with `first` before its records.
pub open spec fn after(first: Seq<RecordView>, rest: Result<Scanned, ParseError>) -> Result<
    Scanned,
    ParseError,
> {
    match rest {
        Ok(scanned) => Ok(Scanned { records: first + scanned.records, end: scanned.end }),
        Err(error) => Err(error),
    }
}

/// The record of a step, as a sequence of one record or none.
pub open spec fn found(record: Option<RecordView>) -> Seq<RecordView> {
    match record {
        Some(record) => seq![record],
        None => Seq::empty(),
    }
}

/// The walk over `elements`, begun with its flag as `armed`.
pub open spec fn scan(elements: Seq<ElementView>, armed: bool, cutoff: i64) -> Result<
    Scanned,
    ParseError,
>
    decreases elements.len(),
{
    if elements.len() == 0 {
        Ok(Scanned { records: Seq::empty(), end: ScanEnd::EndOfInput })
    } else {
        match step(armed, elements[0], cutoff) {
            Step::Fail(error) => Err(error),
            Step::Halt => Ok(Scanned { records: Seq::empty(), end: ScanEnd::Stopped }),
            Step::Next { armed: next, record } => after(
                found(record),
                scan(elements.drop_first(), next, cutoff),
            ),
        }
    }
}

/// The state of a walk: its flag, and the records found so far.
pub struct Scanner {
    armed: bool,
    records: Vec<ExtractedRecord>,
}

impl Scanner {
    /// Whether the next content block is to be passed over.
    pub closed spec fn armed(&self) -> bool {
        self.armed
    }

    /// The records found so far.
    pub closed spec fn records(&self) -> Seq<RecordView> {
        record_views(self.records@)
    }

    /// A walk that has seen nothing.
    pub fn new() -> (out: Scanner)
        ensures
            !out.armed(),
            out.records() == Seq::<RecordView>::empty(),
    {
        let out = Scanner { armed: false, records: Vec::new() };
        assert(out.records() =~= Seq::<RecordView>::empty());
        out
    }

    /// Takes the walk over one element. Returns whether the walk ends here.
    pub fn visit(&mut self, element: &FeedElement, cutoff: i64) -> (out: Result<bool, ParseError>)
        ensures
            match step(old(self).armed(), element@, cutoff) {
                Step::Fail(error) => out == Err::<bool, ParseError>(error) && *final(self) == *old(
                    self,
                ),
                Step::Halt => out == Ok::<bool, ParseError>(true) && *final(self) == *old(self),
                Step::Next { armed, record } => {
                    &&& out == Ok::<bool, ParseError>(false)
                    &&& final(self).armed() == armed
                    &&& final(self).records() == old(self).records() + found(record)
                },
            },
    {
        match element {
            FeedElement::Published(text) => {
                match parse_rfc3339(text.as_str()) {
                    None => Err(ParseError::BadTimestamp),
                    Some(published) => {
                        assert(self.records() + found(None) =~= self.records());
                        Ok(cutoff_reached(published, cutoff))
                    },
                }
            },
            FeedElement::Title(text) => {
                if is_suppressing(text.as_str()) {
                    self.armed = true;
                }
                assert(self.records() + found(None) =~= self.records());
                Ok(false)
            },
            FeedElement::Content(raw) => {
                if self.armed {
                    self.armed = false;
                    assert(self.records() + found(None) =~= self.records());
                } else {
                    let ghost before = self.records@;
                    match record_from_content(raw.as_str()) {
                        Some(record) => {
                            self.records.push(record);
                            assert(record_views(self.records@) =~= record_views(before) + found(
                                Some(record@),
                            ));
                        },
                        None => {
                            assert(self.records() + found(None) =~= self.records());
                        },
                    }
                }
                Ok(false)
            },
        }
    }

    /// Ends the walk and hands out its records.
    pub fn finish(self) -> (out: Vec<ExtractedRecord>)
        ensures
            record_views(out@) == self.records(),
    {
        self.records
    }
}

/// The flag of a walk over `elements` when it has reached their end.
pub open spec fn flag_after(elements: Seq<ElementView>, armed: bool, cutoff: i64) -> bool
    decreases elements.len(),
{
    if elements.len() == 0 {
        armed
    } else {
        match step(armed, elements[0], cutoff) {
            Step::Next { armed: next, .. } => flag_after(elements.drop_first(), next, cutoff),
            _ => armed,
        }
    }
}

/// The elements of a feed are walked in document order. A walk over `first`
/// followed by `second` is the walk over `first`, and, only where that one
/// reaches the end of `first`, the walk over `second` behind it, begun with the
/// flag that `first` has left. Where the walk over `first` stops at the cutoff or
/// fails, `second` is not looked at.
pub proof fn lemma_scan_in_document_order(
    first: Seq<ElementView>,
    second: Seq<ElementView>,
    armed: bool,
    cutoff: i64,
)
    ensures
        scan(first + second, armed, cutoff) == match scan(first, armed, cutoff) {
            Ok(scanned) => if scanned.end is Stopped {
                Ok(scanned)
            } else {
                after(scanned.records, scan(second, flag_after(first, armed, cutoff), cutoff))
            },
            Err(error) => Err(error),
        },
    decreases first.len(),
{
    if first.len() == 0 {
        assert(first + second =~= second);
        let rest = scan(second, armed, cutoff);
        if let Ok(scanned) = rest {
            assert(Seq::<RecordView>::empty() + scanned.records =~= scanned.records);
        }
    } else {
        assert((first + second)[0] == first[0]);
        assert((first + second).drop_first() =~= first.drop_first() + second);
        match step(armed, first[0], cutoff) {
            Step::Next { armed: next, record } => {
                lemma_scan_in_document_order(first.drop_first(), second, next, cutoff);
                if let Ok(scanned) = scan(first.drop_first(), next, cutoff) {
                    if scanned.end is EndOfInput {
                        let behind = scan(
                            second,
                            flag_after(first.drop_first(), next, cutoff),
                            cutoff,
                        );
                        if let Ok(last) = behind {
                            assert(found(record) + (scanned.records + last.records) =~= (found(
                                record,
                            ) + scanned.records) + last.records);
                        }
                    }
                }
            },
            _ => {},
        }
    }
}

/// The walk halts at the first item that was published before the cutoff: where
/// the walk over `before` reaches its end, the walk over `before`, such an item
/// and anything behind it yields the records of `before` and stops.
pub proof fn lemma_scan_halts_at_cutoff(
    before: Seq<ElementView>,
    published: Seq<char>,
    behind: Seq<ElementView>,
    armed: bool,
    cutoff: i64,
)
    requires
        rfc3339_seconds(published) matches Some(at) && at < cutoff,
        scan(before, armed, cutoff) matches Ok(scanned) && scanned.end is EndOfInput,
    ensures
        scan(before + seq![ElementView::Published(published)] + behind, armed, cutoff) == Ok::<
            Scanned,
            ParseError,
        >(Scanned { records: scan(before, armed, cutoff)->Ok_0.records, end: ScanEnd::Stopped }),
{
    let stale = seq![ElementView::Published(published)];
    let flag = flag_after(before, armed, cutoff);
    assert(before + stale + behind =~= before + (stale + behind));
    lemma_scan_in_document_order(before, stale + behind, armed, cutoff);
    assert((stale + behind)[0] == ElementView::Published(published));
    assert(scan(stale + behind, flag, cutoff) == Ok::<Scanned, ParseError>(
        Scanned { records: Seq::empty(), end: ScanEnd::Stopped },
    ));
    assert(scan(before, armed, cutoff)->Ok_0.records + Seq::<RecordView>::empty() =~= scan(
        before,
        armed,
        cutoff,
    )->Ok_0.records);
}

/// A walk that begins at an item published before the cutoff yields nothing: a
/// second pass over a feed, made with a cutoff that lies behind the feed's first
/// published time, has no records.
pub proof fn lemma_seen_feed_yields_nothing(
    published: Seq<char>,
    behind: Seq<ElementView>,
    armed: bool,
    cutoff: i64,
)
    requires
        rfc3339_seconds(published) matches Some(at) && at < cutoff,
    ensures
        scan(seq![ElementView::Published(published)] + behind, armed, cutoff) == Ok::<
            Scanned,
            ParseError,
        >(Scanned { records: Seq::empty(), end: ScanEnd::Stopped }),
{
    assert((seq![ElementView::Published(published)] + behind)[0] == ElementView::Published(
        published,
    ));
}

/// Suppression works once: after a title that suppresses, the next content block
/// is passed over, whatever it holds, and the one behind it is treated as if no
/// title had been there.
pub proof fn lemma_suppression_is_one_shot(
    title: Seq<char>,
    first: Seq<char>,
    second: Seq<char>,
    behind: Seq<ElementView>,
    armed: bool,
    cutoff: i64,
)
    requires
        suppresses(title),
    ensures
        scan(
            seq![
                ElementView::Title(title),
                ElementView::Content(first),
                ElementView::Content(second),
            ] + behind,
            armed,
            cutoff,
        ) == scan(seq![ElementView::Content(second)] + behind, false, cutoff),
{
    let all = seq![
        ElementView::Title(title),
        ElementView::Content(first),
        ElementView::Content(second),
    ] + behind;
    let tail = seq![ElementView::Content(first), ElementView::Content(second)] + behind;
    let last = seq![ElementView::Content(second)] + behind;
    assert(all[0] == ElementView::Title(title));
    assert(all.drop_first() =~= tail);
    assert(tail[0] == ElementView::Content(first));
    assert(tail.drop_first() =~= last);
    lemma_after_nothing(scan(tail, true, cutoff));
    lemma_after_nothing(scan(last, false, cutoff));
}

/// No record before a walk leaves the walk as it is.
pub proof fn lemma_after_nothing(rest: Result<Scanned, ParseError>)
    ensures
        after(Seq::empty(), rest) == rest,
{
    if let Ok(scanned) = rest {
        assert(Seq::<RecordView>::empty() + scanned.records =~= scanned.records);
    }
}

} // verus!
