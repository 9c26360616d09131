//! The row that remembers how far the feed has been processed.
//!
//! The row lives in a store outside this library. What is kept here is its
//! content, and the rule for replacing it.

use vstd::prelude::*;

verus! {

/// The one row of the store: the cutoff, in seconds since the Unix epoch, and the
/// key under which the store files the row.
#[derive(Clone, Debug, PartialEq, Eq)]
pub struct DedupState {
    last_processed_at: i64,
    record_id: String,
}

/// A `DedupState` with its key as a character sequence.
pub struct StateView {
    pub last_processed_at: i64,
    pub record_id: Seq<char>,
}

impl View for DedupState {
    type V = StateView;

    closed spec fn view(&self) -> StateView {
        StateView { last_processed_at: self.last_processed_at, record_id: self.record_id@ }
    }
}

/// The row `state` after `new_cutoff` was saved: the cutoff is replaced, the key
/// stays.
pub open spec fn saved(state: StateView, new_cutoff: i64) -> StateView {
    StateView { last_processed_at: new_cutoff, record_id: state.record_id }
}

/// The cutoff of a store with the rows `rows`: that of its first row, and the
/// oldest time there is for a store without rows.
pub open spec fn cutoff_of(rows: Seq<StateView>) -> i64 {
    if rows.len() == 0 {
        i64::MIN
    } else {
        rows[0].last_processed_at
    }
}

/// The views of `rows`, in order.
pub open spec fn state_views(rows: Seq<DedupState>) -> Seq<StateView> {
    rows.map_values(|row: DedupState| row@)
}

impl DedupState {
    /// The row with the key `record_id` and the cutoff `last_processed_at`.
    pub fn new(record_id: String, last_processed_at: i64) -> (out: DedupState)
        ensures
            out@ == (StateView { last_processed_at, record_id: record_id@ }),
    {
        DedupState { last_processed_at, record_id }
    }

    /// The cutoff.
    pub fn last_processed_at(&self) -> (out: i64)
        ensures
            out == self@.last_processed_at,
    {
        self.last_processed_at
    }

    /// The key of the row.
    pub fn record_id(&self) -> (out: &String)
        ensures
            out@ == self@.record_id,
    {
        &self.record_id
    }

    /// Reads the row.
    pub fn fetch_state(&self) -> (out: DedupState)
        ensures
            out@ == self@,
    {
        DedupState { last_processed_at: self.last_processed_at, record_id: self.record_id.clone() }
    }

    /// Replaces the cutoff of the row.
    pub fn save_state(&mut self, new_cutoff: i64)
        ensures
            final(self)@ == saved(old(self)@, new_cutoff),
    {
        self.last_processed_at = new_cutoff;
    }
}

/// The cutoff that a pass over the feed starts from, given the rows of the store.
pub fn stored_cutoff(rows: &Vec<DedupState>) -> (out: i64)
    ensures
        out == cutoff_of(state_views(rows@)),
{
    if rows.len() == 0 {
        i64::MIN
    } else {
        rows[0].last_processed_at()
    }
}

/// What was saved is what is read: after `new_cutoff` was saved, the row holds it
/// as its cutoff, under the key it had.
pub proof fn lemma_save_then_fetch(state: StateView, new_cutoff: i64)
    ensures
        saved(state, new_cutoff).last_processed_at == new_cutoff,
        saved(state, new_cutoff).record_id == state.record_id,
{
}

/// Saving replaces and does not add up: of two saves the second decides, and a
/// save made twice is a save made once.
pub proof fn lemma_save_replaces(state: StateView, first: i64, second: i64)
    ensures
        saved(saved(state, first), second) == saved(state, second),
        saved(saved(state, first), first) == saved(state, first),
{
}

} // verus!
