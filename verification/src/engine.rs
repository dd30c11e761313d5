//! Per-exchange, per-symbol order book state machine: applies snapshots and
//! diffs, tracks sequence continuity, and exposes the top of the book.

use vstd::prelude::*;

use crate::book::PriceLevel;
use crate::book::PriceLevelStore;
use crate::book::Side;
use crate::book::all_positive;
use crate::book::apply_seq;
use crate::book::better;
use crate::book::lemma_apply_seq_wf;
use crate::book::qty_of;
use crate::book::sorted_strict;

verus! {

/// Synchronization state of one book replica.
#[derive(Clone, Copy, PartialEq, Eq, Structural, Debug)]
pub enum SyncState {
    Unsynced,
    AwaitingSnapshot,
    Synced,
}

/// A full point-in-time listing of both sides, tagged with the exchange's
/// sequence number. Levels carry fixed-point integers; a zero quantity in a
/// message is a deletion marker.
pub struct Snapshot {
    pub bids: Vec<PriceLevel>,
    pub asks: Vec<PriceLevel>,
    pub update_id: u64,
}

/// An incremental set of level changes tagged with a sequence range.
pub struct Diff {
    pub bids: Vec<PriceLevel>,
    pub asks: Vec<PriceLevel>,
    pub first_update_id: u64,
    pub last_update_id: u64,
}

/// Mathematical image of a `Diff`.
pub struct DiffData {
    pub bids: Seq<PriceLevel>,
    pub asks: Seq<PriceLevel>,
    pub first_update_id: u64,
    pub last_update_id: u64,
}

impl View for Diff {
    type V = DiffData;

    open spec fn view(&self) -> DiffData {
        DiffData {
            bids: self.bids@,
            asks: self.asks@,
            first_update_id: self.first_update_id,
            last_update_id: self.last_update_id,
        }
    }
}

/// Mathematical image of one engine: both sides as ordered level sequences,
/// the last applied sequence number, and the synchronization state.
#[verifier::ext_equal]
pub struct BookModel {
    pub bids: Seq<PriceLevel>,
    pub asks: Seq<PriceLevel>,
    pub last_update_id: u64,
    pub sync: SyncState,
}

/// Bounds a side to the configured depth by dropping worst-ranked levels.
pub open spec fn cap_seq(s: Seq<PriceLevel>, depth: nat) -> Seq<PriceLevel> {
    if s.len() <= depth {
        s
    } else {
        s.take(depth as int)
    }
}

/// The book that a snapshot alone denotes: both sides rebuilt wholesale,
/// bounded to `depth`, synced at the snapshot's sequence number.
pub open spec fn snapshot_model(s: Snapshot, depth: nat) -> BookModel {
    BookModel {
        bids: cap_seq(apply_seq(Seq::empty(), Side::Bid, s.bids@), depth),
        asks: cap_seq(apply_seq(Seq::empty(), Side::Ask, s.asks@), depth),
        last_update_id: s.update_id,
        sync: SyncState::Synced,
    }
}

/// A diff whose whole range was already applied: discarded as a duplicate.
pub open spec fn diff_is_stale(last: u64, d: DiffData) -> bool {
    d.last_update_id <= last
}

/// A diff whose range does not touch the next expected sequence number.
pub open spec fn diff_has_gap(last: u64, d: DiffData) -> bool {
    !diff_is_stale(last, d) && d.first_update_id > last + 1
}

/// The whole reconciliation contract for one diff against a synced book:
/// duplicates are no-ops, a gap desynchronizes without touching a level,
/// a contiguous diff is applied on both sides and bounded to `depth`.
/// A book that is not synced is not changed by a diff.
pub open spec fn step_diff(m: BookModel, d: DiffData, depth: nat) -> BookModel {
    if m.sync != SyncState::Synced {
        m
    } else if diff_is_stale(m.last_update_id, d) {
        m
    } else if diff_has_gap(m.last_update_id, d) {
        BookModel { bids: m.bids, asks: m.asks, last_update_id: m.last_update_id, sync: SyncState::Unsynced }
    } else {
        BookModel {
            bids: cap_seq(apply_seq(m.bids, Side::Bid, d.bids), depth),
            asks: cap_seq(apply_seq(m.asks, Side::Ask, d.asks), depth),
            last_update_id: d.last_update_id,
            sync: SyncState::Synced,
        }
    }
}

/// Replaying a whole queue of diffs in delivery order.
pub open spec fn fold_diffs(m: BookModel, ds: Seq<Diff>, depth: nat) -> BookModel
    decreases ds.len(),
{
    if ds.len() == 0 {
        m
    } else {
        fold_diffs(step_diff(m, ds[0]@, depth), ds.skip(1), depth)
    }
}

/// What `apply_diff` reports back, for observability.
#[derive(Clone, Copy, PartialEq, Eq, Structural, Debug)]
pub enum ApplyOutcome {
    Applied,
    Stale,
    Gap,
    Buffered,
    Dropped,
}

/// One exchange's book replica. While `AwaitingSnapshot`, incoming diffs
/// are buffered up to a fixed bound and replayed once the snapshot lands;
/// on overflow, and while `Unsynced`, they are dropped and counted.
pub struct OrderBookEngine {
    bids: PriceLevelStore,
    asks: PriceLevelStore,
    last_update_id: u64,
    sync: SyncState,
    depth: usize,
    buffered: Vec<Diff>,
    buffer_cap: usize,
    dropped_diffs: u64,
}

impl OrderBookEngine {
    pub closed spec fn model(&self) -> BookModel {
        BookModel {
            bids: self.bids@,
            asks: self.asks@,
            last_update_id: self.last_update_id,
            sync: self.sync,
        }
    }

    pub closed spec fn spec_depth(&self) -> nat {
        self.depth as nat
    }

    pub closed spec fn spec_buffer_cap(&self) -> nat {
        self.buffer_cap as nat
    }

    pub closed spec fn buffered_view(&self) -> Seq<Diff> {
        self.buffered@
    }

    pub closed spec fn spec_dropped(&self) -> u64 {
        self.dropped_diffs
    }

    pub closed spec fn wf(&self) -> bool {
        &&& self.bids.wf()
        &&& self.asks.wf()
        &&& self.bids.spec_side() == Side::Bid
        &&& self.asks.spec_side() == Side::Ask
        &&& self.depth >= 1
        &&& self.buffered@.len() <= self.buffer_cap
    }

    /// What well-formedness guarantees about the visible model.
    pub proof fn lemma_wf_model(&self)
        requires
            self.wf(),
        ensures
            sorted_strict(Side::Bid, self.model().bids),
            all_positive(self.model().bids),
            sorted_strict(Side::Ask, self.model().asks),
            all_positive(self.model().asks),
            self.buffered_view().len() <= self.spec_buffer_cap(),
            self.spec_depth() >= 1,
    {
    }

    pub fn new(depth: usize, buffer_cap: usize) -> (r: OrderBookEngine)
        requires
            depth >= 1,
        ensures
            r.wf(),
            r.model() == (BookModel {
                bids: Seq::<PriceLevel>::empty(),
                asks: Seq::<PriceLevel>::empty(),
                last_update_id: 0,
                sync: SyncState::Unsynced,
            }),
            r.spec_depth() == depth,
            r.spec_buffer_cap() == buffer_cap,
            r.buffered_view() =~= Seq::<Diff>::empty(),
            r.spec_dropped() == 0,
    {
        let r = OrderBookEngine {
            bids: PriceLevelStore::new(Side::Bid),
            asks: PriceLevelStore::new(Side::Ask),
            last_update_id: 0,
            sync: SyncState::Unsynced,
            depth,
            buffered: Vec::new(),
            buffer_cap,
            dropped_diffs: 0,
        };
        proof {
            assert(r.model() =~= (BookModel {
                bids: Seq::<PriceLevel>::empty(),
                asks: Seq::<PriceLevel>::empty(),
                last_update_id: 0,
                sync: SyncState::Unsynced,
            }));
        }
        r
    }

    pub fn sync_state(&self) -> (r: SyncState)
        ensures
            r == self.model().sync,
    {
        self.sync
    }

    pub fn last_update_id(&self) -> (r: u64)
        ensures
            r == self.model().last_update_id,
    {
        self.last_update_id
    }

    pub fn dropped_diffs(&self) -> (r: u64)
        ensures
            r == self.spec_dropped(),
    {
        self.dropped_diffs
    }

    pub fn buffered_len(&self) -> (r: usize)
        ensures
            r == self.buffered_view().len(),
    {
        self.buffered.len()
    }

    /// Replaces both stores wholesale, never merged; the sole recovery
    /// action, safe from any state.
    pub fn apply_snapshot(&mut self, s: &Snapshot)
        requires
            old(self).wf(),
        ensures
            final(self).wf(),
            final(self).model() == snapshot_model(*s, old(self).spec_depth()),
            final(self).spec_depth() == old(self).spec_depth(),
            final(self).spec_buffer_cap() == old(self).spec_buffer_cap(),
            final(self).buffered_view() == old(self).buffered_view(),
            final(self).spec_dropped() == old(self).spec_dropped(),
    {
        let ghost depth = self.depth as nat;
        let mut bids = PriceLevelStore::new(Side::Bid);
        bids.apply_levels(&s.bids);
        bids.truncate_depth(self.depth);
        let mut asks = PriceLevelStore::new(Side::Ask);
        asks.apply_levels(&s.asks);
        asks.truncate_depth(self.depth);
        proof {
            lemma_cap_take(apply_seq(Seq::empty(), Side::Bid, s.bids@), depth);
            lemma_cap_take(apply_seq(Seq::empty(), Side::Ask, s.asks@), depth);
        }
        self.bids = bids;
        self.asks = asks;
        self.last_update_id = s.update_id;
        self.sync = SyncState::Synced;
        proof {
            assert(self.model() =~= snapshot_model(*s, depth));
        }
    }

    /// Applies, discards, buffers or drops one diff, exactly as `step_diff`
    /// and the buffering policy above say.
    pub fn apply_diff(&mut self, d: Diff) -> (r: ApplyOutcome)
        requires
            old(self).wf(),
        ensures
            final(self).wf(),
            final(self).model() == step_diff(old(self).model(), d@, old(self).spec_depth()),
            final(self).spec_depth() == old(self).spec_depth(),
            final(self).spec_buffer_cap() == old(self).spec_buffer_cap(),
            old(self).model().sync == SyncState::Synced ==> {
                &&& final(self).buffered_view() == old(self).buffered_view()
                &&& final(self).spec_dropped() == old(self).spec_dropped()
                &&& r == (if diff_is_stale(old(self).model().last_update_id, d@) {
                    ApplyOutcome::Stale
                } else if diff_has_gap(old(self).model().last_update_id, d@) {
                    ApplyOutcome::Gap
                } else {
                    ApplyOutcome::Applied
                })
            },
            old(self).model().sync == SyncState::AwaitingSnapshot && old(
                self,
            ).buffered_view().len() < old(self).spec_buffer_cap() ==> {
                &&& final(self).buffered_view() == old(self).buffered_view().push(d)
                &&& final(self).spec_dropped() == old(self).spec_dropped()
                &&& r == ApplyOutcome::Buffered
            },
            (old(self).model().sync == SyncState::Unsynced || (old(self).model().sync
                == SyncState::AwaitingSnapshot && old(self).buffered_view().len() >= old(
                self,
            ).spec_buffer_cap())) ==> {
                &&& final(self).buffered_view() == old(self).buffered_view()
                &&& final(self).spec_dropped() == (if old(self).spec_dropped() == u64::MAX {
                    u64::MAX
                } else {
                    (old(self).spec_dropped() + 1) as u64
                })
                &&& r == ApplyOutcome::Dropped
            },
    {
        let ghost m0 = self.model();
        let ghost depth = self.depth as nat;
        match self.sync {
            SyncState::Synced => {
                if d.last_update_id <= self.last_update_id {
                    // entirely behind the book: a duplicate
                    ApplyOutcome::Stale
                } else if d.first_update_id > self.last_update_id + 1 {
                    // a gap: desynchronize, apply nothing
                    self.sync = SyncState::Unsynced;
                    proof {
                        assert(self.model() =~= step_diff(m0, d@, depth));
                    }
                    ApplyOutcome::Gap
                } else {
                    self.bids.apply_levels(&d.bids);
                    self.bids.truncate_depth(self.depth);
                    self.asks.apply_levels(&d.asks);
                    self.asks.truncate_depth(self.depth);
                    self.last_update_id = d.last_update_id;
                    proof {
                        lemma_cap_take(apply_seq(m0.bids, Side::Bid, d.bids@), depth);
                        lemma_cap_take(apply_seq(m0.asks, Side::Ask, d.asks@), depth);
                        assert(self.model() =~= step_diff(m0, d@, depth));
                    }
                    ApplyOutcome::Applied
                }
            },
            SyncState::AwaitingSnapshot => {
                if self.buffered.len() < self.buffer_cap {
                    self.buffered.push(d);
                    ApplyOutcome::Buffered
                } else {
                    if self.dropped_diffs < u64::MAX {
                        self.dropped_diffs = self.dropped_diffs + 1;
                    }
                    ApplyOutcome::Dropped
                }
            },
            SyncState::Unsynced => {
                if self.dropped_diffs < u64::MAX {
                    self.dropped_diffs = self.dropped_diffs + 1;
                }
                ApplyOutcome::Dropped
            },
        }
    }


    /// Marks the book desynchronized pending a fresh snapshot; the resync
    /// controller's first step.
    pub fn await_snapshot(&mut self)
        requires
            old(self).wf(),
        ensures
            final(self).wf(),
            final(self).model() == (BookModel {
                bids: old(self).model().bids,
                asks: old(self).model().asks,
                last_update_id: old(self).model().last_update_id,
                sync: SyncState::AwaitingSnapshot,
            }),
            final(self).spec_depth() == old(self).spec_depth(),
            final(self).spec_buffer_cap() == old(self).spec_buffer_cap(),
            final(self).buffered_view() == old(self).buffered_view(),
            final(self).spec_dropped() == old(self).spec_dropped(),
    {
        self.sync = SyncState::AwaitingSnapshot;
        proof {
            assert(self.model() =~= (BookModel {
                bids: old(self).model().bids,
                asks: old(self).model().asks,
                last_update_id: old(self).model().last_update_id,
                sync: SyncState::AwaitingSnapshot,
            }));
        }
    }

    /// Recovery: applies the fresh snapshot, then replays every diff that
    /// was buffered while awaiting it, in delivery order; duplicates fall
    /// out as no-ops and a replayed gap desynchronizes again. Diffs left
    /// after such a gap are discarded with the buffer.
    pub fn resync_with(&mut self, s: &Snapshot)
        requires
            old(self).wf(),
        ensures
            final(self).wf(),
            final(self).model() == fold_diffs(
                snapshot_model(*s, old(self).spec_depth()),
                old(self).buffered_view(),
                old(self).spec_depth(),
            ),
            final(self).buffered_view() =~= Seq::<Diff>::empty(),
            final(self).spec_depth() == old(self).spec_depth(),
            final(self).spec_buffer_cap() == old(self).spec_buffer_cap(),
            final(self).spec_dropped() == old(self).spec_dropped(),
    {
        let ghost ds0 = self.buffered@;
        let ghost depth = self.depth as nat;
        self.apply_snapshot(s);
        let ghost m0 = self.model();
        while self.buffered.len() > 0
            invariant
                self.wf(),
                self.spec_depth() == depth,
                self.spec_buffer_cap() == old(self).spec_buffer_cap(),
                self.spec_dropped() == old(self).spec_dropped(),
                fold_diffs(m0, ds0, depth) == fold_diffs(
                    self.model(),
                    self.buffered_view(),
                    depth,
                ),
            decreases self.buffered@.len(),
        {
            let ghost ds = self.buffered@;
            let ghost mpre = self.model();
            let d = self.buffered.remove(0);
            proof {
                assert(self.buffered@ =~= ds.skip(1));
                assert(fold_diffs(mpre, ds, depth) == fold_diffs(
                    step_diff(mpre, ds[0]@, depth),
                    ds.skip(1),
                    depth,
                ));
            }
            let synced = match self.sync_state() {
                SyncState::Synced => true,
                _ => false,
            };
            if synced {
                self.apply_diff(d);
            } else {
                proof {
                    assert(step_diff(mpre, d@, depth) == mpre);
                }
            }
        }
        proof {
            assert(fold_diffs(self.model(), self.buffered_view(), depth) == self.model());
        }
    }

    /// Best bid and best ask; `None` for a side with no levels means
    /// "quote unavailable", never a zero price.
    pub fn best_bid_ask(&self) -> (r: (Option<PriceLevel>, Option<PriceLevel>))
        requires
            self.wf(),
        ensures
            match r.0 {
                Some(l) => self.model().bids.len() > 0 && l == self.model().bids[0] && l.quantity
                    > 0 && forall|p: u64|
                    qty_of(self.model().bids, p).is_some() ==> !better(Side::Bid, p, l.price),
                None => self.model().bids.len() == 0,
            },
            match r.1 {
                Some(l) => self.model().asks.len() > 0 && l == self.model().asks[0] && l.quantity
                    > 0 && forall|p: u64|
                    qty_of(self.model().asks, p).is_some() ==> !better(Side::Ask, p, l.price),
                None => self.model().asks.len() == 0,
            },
    {
        (self.bids.best(), self.asks.best())
    }

    /// The `n` best levels of one side, in rank order.
    pub fn top_n(&self, side: Side, n: usize) -> (r: Vec<PriceLevel>)
        requires
            self.wf(),
        ensures
            r@.len() <= n,
            sorted_strict(side, r@),
            all_positive(r@),
            r@ == (match side {
                Side::Bid => self.model().bids,
                Side::Ask => self.model().asks,
            }).take(
                ({
                    let s = match side {
                        Side::Bid => self.model().bids,
                        Side::Ask => self.model().asks,
                    };
                    if n <= s.len() { n as int } else { s.len() as int }
                }),
            ),
    {
        match side {
            Side::Bid => self.bids.top_n(n),
            Side::Ask => self.asks.top_n(n),
        }
    }
}

/// `cap_seq` is what `truncate_depth` leaves behind.
proof fn lemma_cap_take(s: Seq<PriceLevel>, depth: nat)
    ensures
        cap_seq(s, depth) == s.take(if depth <= s.len() { depth as int } else { s.len() as int }),
{
    if s.len() <= depth {
        assert(s.take(s.len() as int) =~= s);
        if depth <= s.len() {
            assert(s.take(depth as int) =~= s);
        }
    }
}

/// Law: a snapshot followed by any contiguous diff
/// (`first_update_id == update_id + 1`) yields a synced book holding the
/// merged levels (applied on the snapshot's, bounded to the depth), whose
/// best level on each side is exactly what direct computation over the
/// merged levels gives: their first entry, which outranks every other
/// resting price.
pub proof fn lemma_snapshot_then_diff_best(s: Snapshot, d: DiffData, depth: nat)
    requires
        depth >= 1,
        d.first_update_id == s.update_id + 1,
        d.last_update_id >= d.first_update_id,
    ensures
        ({
            let m = step_diff(snapshot_model(s, depth), d, depth);
            let merged_bids = apply_seq(snapshot_model(s, depth).bids, Side::Bid, d.bids);
            let merged_asks = apply_seq(snapshot_model(s, depth).asks, Side::Ask, d.asks);
            &&& m.sync == SyncState::Synced
            &&& m.last_update_id == d.last_update_id
            &&& m.bids == cap_seq(merged_bids, depth)
            &&& m.asks == cap_seq(merged_asks, depth)
            &&& m.bids.len() == 0 <==> merged_bids.len() == 0
            &&& m.asks.len() == 0 <==> merged_asks.len() == 0
            &&& (merged_bids.len() > 0 ==> m.bids[0] == merged_bids[0] && qty_of(
                merged_bids,
                m.bids[0].price,
            ) == Some(m.bids[0].quantity) && forall|p: u64|
                qty_of(merged_bids, p).is_some() ==> !better(Side::Bid, p, m.bids[0].price))
            &&& (merged_asks.len() > 0 ==> m.asks[0] == merged_asks[0] && qty_of(
                merged_asks,
                m.asks[0].price,
            ) == Some(m.asks[0].quantity) && forall|p: u64|
                qty_of(merged_asks, p).is_some() ==> !better(Side::Ask, p, m.asks[0].price))
        }),
{
    let m0 = snapshot_model(s, depth);
    assert(!diff_is_stale(m0.last_update_id, d));
    assert(!diff_has_gap(m0.last_update_id, d));
    let merged_bids = apply_seq(m0.bids, Side::Bid, d.bids);
    let merged_asks = apply_seq(m0.asks, Side::Ask, d.asks);
    let m = step_diff(m0, d, depth);
    lemma_apply_seq_wf(Seq::empty(), Side::Bid, s.bids@);
    lemma_apply_seq_wf(Seq::empty(), Side::Ask, s.asks@);
    lemma_cap_seq_wf(apply_seq(Seq::empty(), Side::Bid, s.bids@), Side::Bid, depth);
    lemma_cap_seq_wf(apply_seq(Seq::empty(), Side::Ask, s.asks@), Side::Ask, depth);
    lemma_apply_seq_wf(m0.bids, Side::Bid, d.bids);
    lemma_apply_seq_wf(m0.asks, Side::Ask, d.asks);
    assert(m.bids == cap_seq(merged_bids, depth));
    assert(m.asks == cap_seq(merged_asks, depth));
    if merged_bids.len() > depth {
        assert(m.bids == merged_bids.take(depth as int));
        assert(m.bids[0] == merged_bids[0]);
    }
    if merged_asks.len() > depth {
        assert(m.asks == merged_asks.take(depth as int));
        assert(m.asks[0] == merged_asks[0]);
    }
    if merged_bids.len() > 0 {
        crate::book::lemma_sorted_head_is_best(Side::Bid, merged_bids);
    }
    if merged_asks.len() > 0 {
        crate::book::lemma_sorted_head_is_best(Side::Ask, merged_asks);
    }
}

/// Bounding a sorted side keeps it sorted and positive.
proof fn lemma_cap_seq_wf(s: Seq<PriceLevel>, side: Side, depth: nat)
    requires
        sorted_strict(side, s),
        all_positive(s),
    ensures
        sorted_strict(side, cap_seq(s, depth)),
        all_positive(cap_seq(s, depth)),
{
    let t = cap_seq(s, depth);
    assert forall|a: int, b: int| 0 <= a < b < t.len() implies better(
        side,
        t[a].price,
        t[b].price,
    ) by {
        assert(t[a] == s[a]);
        assert(t[b] == s[b]);
    }
    assert forall|a: int| 0 <= a < t.len() implies t[a].quantity > 0 by {
        assert(t[a] == s[a]);
    }
}

/// Law: a diff with a gap (`first_update_id > last_update_id + 1`) always
/// takes a synced book to `Unsynced` and never applies a single level:
/// both sides and the sequence number are untouched.
pub proof fn lemma_gap_never_partially_applies(m: BookModel, d: DiffData, depth: nat)
    requires
        m.sync == SyncState::Synced,
        d.last_update_id > m.last_update_id,
        d.first_update_id > m.last_update_id + 1,
    ensures
        step_diff(m, d, depth).sync == SyncState::Unsynced,
        step_diff(m, d, depth).bids == m.bids,
        step_diff(m, d, depth).asks == m.asks,
        step_diff(m, d, depth).last_update_id == m.last_update_id,
{
}

} // verus!
