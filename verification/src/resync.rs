//! Owns the transition out of `Unsynced`: decides when to request a fresh
//! snapshot, counts consecutive fetch failures up to a fatal bound, and
//! hands a fresh snapshot to the engine for replay. The owning task
//! performs the fetches (and their backoff and timeout) and feeds the
//! outcomes back; a fetch that times out counts as one failure.

use vstd::prelude::*;

use crate::engine::BookModel;
use crate::engine::OrderBookEngine;
use crate::engine::Snapshot;
use crate::engine::SyncState;
use crate::engine::fold_diffs;
use crate::engine::snapshot_model;

verus! {

/// What the owning task must do next.
#[derive(Clone, Copy, PartialEq, Eq, Structural, Debug)]
pub enum ResyncAction {
    /// Request a fresh snapshot from the REST collaborator.
    FetchSnapshot,
    /// Too many consecutive failures: a hard error for this exchange's
    /// engine; other exchanges are unaffected.
    Fatal,
}

/// Drives one engine back to `Synced`, with a bounded retry budget.
pub struct ResyncController {
    max_attempts: u64,
    attempts: u64,
}

impl ResyncController {
    /// Consecutive failures seen since the last successful snapshot.
    pub closed spec fn spec_attempts(&self) -> u64 {
        self.attempts
    }

    /// The fatal bound fixed at construction.
    pub closed spec fn spec_max_attempts(&self) -> u64 {
        self.max_attempts
    }

    pub open spec fn wf(&self) -> bool {
        &&& self.spec_max_attempts() >= 1
        &&& self.spec_attempts() <= self.spec_max_attempts()
    }

    pub fn new(max_attempts: u64) -> (r: ResyncController)
        requires
            max_attempts >= 1,
        ensures
            r.wf(),
            r.spec_max_attempts() == max_attempts,
            r.spec_attempts() == 0,
    {
        ResyncController { max_attempts, attempts: 0 }
    }

    /// Starts a resync round: the engine awaits a snapshot (buffering
    /// diffs meanwhile), the failure budget is reset, and the caller is
    /// told to fetch.
    pub fn begin(&mut self, engine: &mut OrderBookEngine) -> (r: ResyncAction)
        requires
            old(self).wf(),
            old(engine).wf(),
        ensures
            final(self).wf(),
            final(self).spec_max_attempts() == old(self).spec_max_attempts(),
            final(self).spec_attempts() == 0,
            r == ResyncAction::FetchSnapshot,
            final(engine).wf(),
            final(engine).model() == (BookModel {
                bids: old(engine).model().bids,
                asks: old(engine).model().asks,
                last_update_id: old(engine).model().last_update_id,
                sync: SyncState::AwaitingSnapshot,
            }),
            final(engine).spec_depth() == old(engine).spec_depth(),
            final(engine).spec_buffer_cap() == old(engine).spec_buffer_cap(),
            final(engine).buffered_view() == old(engine).buffered_view(),
            final(engine).spec_dropped() == old(engine).spec_dropped(),
    {
        engine.await_snapshot();
        self.attempts = 0;
        ResyncAction::FetchSnapshot
    }

    /// One snapshot fetch failed (or timed out): retry until the budget
    /// is exhausted, then give up for good.
    pub fn snapshot_failed(&mut self) -> (r: ResyncAction)
        requires
            old(self).wf(),
        ensures
            final(self).wf(),
            final(self).spec_max_attempts() == old(self).spec_max_attempts(),
            final(self).spec_attempts() == (if old(self).spec_attempts() < old(
                self,
            ).spec_max_attempts() {
                (old(self).spec_attempts() + 1) as u64
            } else {
                old(self).spec_attempts()
            }),
            r == (if old(self).spec_attempts() + 1 >= old(self).spec_max_attempts() {
                ResyncAction::Fatal
            } else {
                ResyncAction::FetchSnapshot
            }),
    {
        if self.attempts < self.max_attempts {
            self.attempts = self.attempts + 1;
        }
        if self.attempts >= self.max_attempts {
            ResyncAction::Fatal
        } else {
            ResyncAction::FetchSnapshot
        }
    }

    /// The fetched snapshot landed: the engine applies it wholesale and
    /// replays the diffs buffered while awaiting it, in delivery order;
    /// the failure budget resets.
    pub fn snapshot_ready(&mut self, engine: &mut OrderBookEngine, s: &Snapshot)
        requires
            old(self).wf(),
            old(engine).wf(),
        ensures
            final(self).wf(),
            final(self).spec_max_attempts() == old(self).spec_max_attempts(),
            final(self).spec_attempts() == 0,
            final(engine).wf(),
            final(engine).model() == fold_diffs(
                snapshot_model(*s, old(engine).spec_depth()),
                old(engine).buffered_view(),
                old(engine).spec_depth(),
            ),
            final(engine).buffered_view() =~= Seq::<crate::engine::Diff>::empty(),
            final(engine).spec_depth() == old(engine).spec_depth(),
            final(engine).spec_buffer_cap() == old(engine).spec_buffer_cap(),
            final(engine).spec_dropped() == old(engine).spec_dropped(),
    {
        engine.resync_with(s);
        self.attempts = 0;
    }
}

} // verus!
