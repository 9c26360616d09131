//! The record that one content block of the feed yields.

use vstd::prelude::*;

verus! {

/// What a record announces.
#[derive(Clone, Copy, Debug, PartialEq, Eq, Structural)]
pub enum RecordKind {
    Announcement,
    Task,
}

/// Why a content block yields no record.
#[derive(Clone, Copy, Debug, PartialEq, Eq, Structural)]
pub enum ExtractionError {
    /// The block has fewer than four lines.
    TooFewLines,
    /// The block is too short to hold the link line, or the lines of an
    /// announcement's text, at their fixed distance from its end.
    LinkOutOfPlace,
    /// The link line is a placeholder with fewer than three identifiers.
    MissingIds,
}

/// One notification: what happened, for which subject, and where to look.
#[derive(Clone, Debug, PartialEq, Eq)]
pub struct ExtractedRecord {
    pub kind: RecordKind,
    pub subject: String,
    pub headline: String,
    pub body: String,
    pub action_link: String,
}

/// An `ExtractedRecord` with its texts as character sequences.
pub struct RecordView {
    pub kind: RecordKind,
    pub subject: Seq<char>,
    pub headline: Seq<char>,
    pub body: Seq<char>,
    pub action_link: Seq<char>,
}

impl View for ExtractedRecord {
    type V = RecordView;

    open spec fn view(&self) -> RecordView {
        RecordView {
            kind: self.kind,
            subject: self.subject@,
            headline: self.headline@,
            body: self.body@,
            action_link: self.action_link@,
        }
    }
}

/// The views of `records`, in order.
pub open spec fn record_views(records: Seq<ExtractedRecord>) -> Seq<RecordView> {
    records.map_values(|r: ExtractedRecord| r@)
}

} // verus!
