use localorderbook::book::{PriceLevel, PriceLevelStore, Side};
use localorderbook::decimal::parse_fixed;
use localorderbook::engine::{ApplyOutcome, Diff, OrderBookEngine, Snapshot, SyncState};

fn px(text: &str) -> u64 {
    parse_fixed(text.as_bytes()).expect("well-formed fixed-point text")
}

fn level(price: &str, qty: &str) -> PriceLevel {
    PriceLevel { price: px(price), quantity: px(qty) }
}

#[test]
fn upsert_inserts_replaces_and_removes() {
    let mut store = PriceLevelStore::new(Side::Bid);
    assert_eq!(store.len(), 0);
    assert_eq!(store.best(), None);

    store.upsert(px("100.0"), px("2.0"));
    assert_eq!(store.len(), 1);
    assert_eq!(store.best(), Some(level("100.0", "2.0")));

    // replace the quantity at the same price
    store.upsert(px("100.0"), px("5.0"));
    assert_eq!(store.len(), 1);
    assert_eq!(store.best(), Some(level("100.0", "5.0")));

    // zero quantity removes
    store.upsert(px("100.0"), 0);
    assert_eq!(store.len(), 0);
    assert_eq!(store.best(), None);

    // removing an absent price is a no-op
    store.upsert(px("100.0"), 0);
    assert_eq!(store.len(), 0);
}

#[test]
fn upsert_zero_after_insert_converges() {
    // two stores given the same calls in different repetition counts
    // converge to the same state
    let mut a = PriceLevelStore::new(Side::Ask);
    let mut b = PriceLevelStore::new(Side::Ask);
    a.upsert(px("101.0"), px("3.0"));
    a.upsert(px("101.0"), px("3.0"));
    a.upsert(px("102.0"), px("1.0"));
    a.upsert(px("101.0"), 0);
    a.upsert(px("101.0"), 0);
    b.upsert(px("101.0"), px("3.0"));
    b.upsert(px("102.0"), px("1.0"));
    b.upsert(px("101.0"), 0);
    assert_eq!(a.top_n(10), b.top_n(10));
    assert_eq!(a.top_n(10), vec![level("102.0", "1.0")]);
}

#[test]
fn top_n_is_bounded_and_sorted_bids() {
    let mut store = PriceLevelStore::new(Side::Bid);
    for (p, q) in [("5.0", "1.0"), ("9.0", "2.0"), ("1.0", "3.0"), ("7.0", "4.0"), ("3.0", "5.0")]
    {
        store.upsert(px(p), px(q));
    }
    let top = store.top_n(3);
    assert_eq!(top.len(), 3);
    assert_eq!(
        top,
        vec![level("9.0", "2.0"), level("7.0", "4.0"), level("5.0", "1.0")]
    );
    let all = store.top_n(100);
    assert_eq!(all.len(), 5);
    for w in all.windows(2) {
        assert!(w[0].price > w[1].price);
    }
}

#[test]
fn top_n_is_bounded_and_sorted_asks() {
    let mut store = PriceLevelStore::new(Side::Ask);
    for (p, q) in [("5.0", "1.0"), ("9.0", "2.0"), ("1.0", "3.0"), ("7.0", "4.0"), ("3.0", "5.0")]
    {
        store.upsert(px(p), px(q));
    }
    let top = store.top_n(2);
    assert_eq!(top, vec![level("1.0", "3.0"), level("3.0", "5.0")]);
    assert_eq!(store.best(), Some(level("1.0", "3.0")));
}

#[test]
fn truncate_keeps_the_best_ranked() {
    let mut store = PriceLevelStore::new(Side::Bid);
    for i in 1..=6u64 {
        store.upsert(i * 100_000_000, 100_000_000);
    }
    store.truncate_depth(2);
    assert_eq!(store.len(), 2);
    assert_eq!(store.top_n(10), vec![level("6.0", "1.0"), level("5.0", "1.0")]);
    // truncating beyond the length changes nothing
    store.truncate_depth(10);
    assert_eq!(store.len(), 2);
}

fn spec_snapshot() -> Snapshot {
    Snapshot {
        bids: vec![level("100.0", "2.0")],
        asks: vec![level("101.0", "3.0")],
        update_id: 10,
    }
}

fn engine_with_snapshot() -> OrderBookEngine {
    let mut engine = OrderBookEngine::new(500, 16);
    assert_eq!(engine.sync_state(), SyncState::Unsynced);
    engine.apply_snapshot(&spec_snapshot());
    assert_eq!(engine.sync_state(), SyncState::Synced);
    assert_eq!(engine.last_update_id(), 10);
    engine
}

#[test]
fn snapshot_then_contiguous_diff_moves_best_bid() {
    let mut engine = engine_with_snapshot();
    let diff = Diff {
        bids: vec![
            PriceLevel { price: px("100.0"), quantity: 0 },
            level("99.5", "1.0"),
        ],
        asks: vec![],
        first_update_id: 11,
        last_update_id: 11,
    };
    let outcome = engine.apply_diff(diff);
    assert_eq!(outcome, ApplyOutcome::Applied);
    assert_eq!(engine.sync_state(), SyncState::Synced);
    assert_eq!(engine.last_update_id(), 11);
    let (bid, ask) = engine.best_bid_ask();
    assert_eq!(bid, Some(level("99.5", "1.0")));
    assert_eq!(ask, Some(level("101.0", "3.0")));
}

#[test]
fn gap_diff_desynchronizes_and_applies_nothing() {
    let mut engine = engine_with_snapshot();
    let diff = Diff {
        bids: vec![level("99.5", "1.0")],
        asks: vec![level("50.0", "1.0")],
        first_update_id: 13,
        last_update_id: 14,
    };
    let outcome = engine.apply_diff(diff);
    assert_eq!(outcome, ApplyOutcome::Gap);
    assert_eq!(engine.sync_state(), SyncState::Unsynced);
    // nothing was applied, the books still quote the snapshot
    let (bid, ask) = engine.best_bid_ask();
    assert_eq!(bid, Some(level("100.0", "2.0")));
    assert_eq!(ask, Some(level("101.0", "3.0")));
    assert_eq!(engine.last_update_id(), 10);
}

#[test]
fn stale_diff_is_discarded_as_duplicate() {
    let mut engine = engine_with_snapshot();
    let diff = Diff {
        bids: vec![level("1.0", "1.0")],
        asks: vec![],
        first_update_id: 9,
        last_update_id: 10,
    };
    let outcome = engine.apply_diff(diff);
    assert_eq!(outcome, ApplyOutcome::Stale);
    assert_eq!(engine.sync_state(), SyncState::Synced);
    let (bid, _) = engine.best_bid_ask();
    assert_eq!(bid, Some(level("100.0", "2.0")));
}

#[test]
fn partially_overlapping_diff_applies() {
    let mut engine = engine_with_snapshot();
    let diff = Diff {
        bids: vec![level("100.5", "1.0")],
        asks: vec![],
        first_update_id: 8,
        last_update_id: 12,
    };
    assert_eq!(engine.apply_diff(diff), ApplyOutcome::Applied);
    assert_eq!(engine.last_update_id(), 12);
    let (bid, _) = engine.best_bid_ask();
    assert_eq!(bid, Some(level("100.5", "1.0")));
}

#[test]
fn depth_is_bounded_after_application() {
    let mut engine = OrderBookEngine::new(2, 4);
    let snap = Snapshot {
        bids: vec![
            level("1.0", "1.0"),
            level("2.0", "1.0"),
            level("3.0", "1.0"),
            level("4.0", "1.0"),
        ],
        asks: vec![],
        update_id: 1,
    };
    engine.apply_snapshot(&snap);
    let top = engine.top_n(Side::Bid, 10);
    assert_eq!(top, vec![level("4.0", "1.0"), level("3.0", "1.0")]);
}
