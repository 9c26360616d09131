//! What one polling cycle does with what it fetched.
//!
//! Fetching, sending and sleeping happen outside this library. A cycle hands in
//! what it fetched and is told what to send and what to save.

use vstd::prelude::*;
use crate::feed::{scan, ParseError};
use crate::parse::{elements, parse_xml};
use crate::record::{record_views, ExtractedRecord};
use crate::xml::document_events;

verus! {

/// The seconds between two cycles.
pub const INTERVAL_SECS: u64 = 300;

/// Why a cycle ends early. Nothing is sent and nothing is saved then, and the next
/// cycle starts when its time has come.
#[derive(Clone, Copy, Debug, PartialEq, Eq, Structural)]
pub enum CycleError {
    /// The feed could not be fetched.
    Fetch,
    /// The feed could not be walked.
    Parse(ParseError),
}

/// What a cycle that ran to its end asks for.
#[derive(Debug)]
pub struct CyclePlan {
    /// The records to send, one message each, in this order.
    pub notifications: Vec<ExtractedRecord>,
    /// The cutoff to save.
    pub new_cutoff: i64,
}

/// Decides what a cycle sends and saves.
///
/// `feed` is the document that was fetched, or nothing where fetching failed;
/// `cutoff` is the stored cutoff and `now` the time of this cycle.
pub fn plan_cycle(feed: Option<&str>, cutoff: i64, now: i64) -> (out: Result<CyclePlan, CycleError>)
    ensures
        match feed {
            None => out == Err::<CyclePlan, CycleError>(CycleError::Fetch),
            Some(document) => match scan(elements(document_events(document@, true), 0), false, cutoff) {
                Ok(scanned) => out matches Ok(plan) && record_views(plan.notifications@)
                    == scanned.records && plan.new_cutoff == now,
                Err(error) => out == Err::<CyclePlan, CycleError>(CycleError::Parse(error)),
            },
        },
{
    match feed {
        None => Err(CycleError::Fetch),
        Some(document) => match parse_xml(document, cutoff, now) {
            Ok(pass) => Ok(CyclePlan { notifications: pass.records, new_cutoff: pass.new_cutoff }),
            Err(error) => Err(CycleError::Parse(error)),
        },
    }
}

} // verus!
