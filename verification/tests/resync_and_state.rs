use localorderbook::PriceLevel;
use localorderbook::decimal::parse_fixed;
use localorderbook::engine::{ApplyOutcome, Diff, OrderBookEngine, Snapshot, SyncState};
use localorderbook::resync::{ResyncAction, ResyncController};
use localorderbook::shared_state::{BestBidAsk, Exchange, Secrets, SharedMarketState};

fn px(text: &str) -> u64 {
    parse_fixed(text.as_bytes()).expect("well-formed fixed-point text")
}

fn level(price: &str, qty: &str) -> PriceLevel {
    PriceLevel { price: px(price), quantity: px(qty) }
}

fn diff(first: u64, last: u64, bids: Vec<PriceLevel>, asks: Vec<PriceLevel>) -> Diff {
    Diff { bids, asks, first_update_id: first, last_update_id: last }
}

#[test]
fn gap_triggers_exactly_one_resync_request() {
    let mut engine = OrderBookEngine::new(500, 16);
    engine.apply_snapshot(&Snapshot {
        bids: vec![level("100.0", "2.0")],
        asks: vec![level("101.0", "3.0")],
        update_id: 10,
    });
    let mut controller = ResyncController::new(5);
    let mut requests = 0;
    let outcome = engine.apply_diff(diff(13, 14, vec![level("99.0", "1.0")], vec![]));
    assert_eq!(outcome, ApplyOutcome::Gap);
    if engine.sync_state() == SyncState::Unsynced {
        let action = controller.begin(&mut engine);
        assert_eq!(action, ResyncAction::FetchSnapshot);
        requests += 1;
    }
    assert_eq!(requests, 1);
    assert_eq!(engine.sync_state(), SyncState::AwaitingSnapshot);
    // the gapped diff itself was discarded, not buffered
    assert_eq!(engine.buffered_len(), 0);
}

#[test]
fn buffered_diffs_replay_after_snapshot() {
    let mut engine = OrderBookEngine::new(500, 16);
    let mut controller = ResyncController::new(5);
    controller.begin(&mut engine);
    assert_eq!(engine.sync_state(), SyncState::AwaitingSnapshot);

    // live diffs arrive while the snapshot request is in flight
    let d1 = diff(11, 11, vec![level("99.5", "1.0")], vec![]);
    let d2 = diff(12, 12, vec![], vec![level("101.5", "4.0")]);
    let stale = diff(5, 6, vec![level("42.0", "9.0")], vec![]);
    assert_eq!(engine.apply_diff(stale), ApplyOutcome::Buffered);
    assert_eq!(engine.apply_diff(d1), ApplyOutcome::Buffered);
    assert_eq!(engine.apply_diff(d2), ApplyOutcome::Buffered);
    assert_eq!(engine.buffered_len(), 3);

    let snapshot = Snapshot {
        bids: vec![level("100.0", "2.0")],
        asks: vec![level("101.0", "3.0")],
        update_id: 10,
    };
    controller.snapshot_ready(&mut engine, &snapshot);
    assert_eq!(engine.sync_state(), SyncState::Synced);
    assert_eq!(engine.buffered_len(), 0);
    assert_eq!(engine.last_update_id(), 12);
    let (bid, ask) = engine.best_bid_ask();
    // the stale buffered diff was a no-op; the live ones applied in order
    assert_eq!(bid, Some(level("100.0", "2.0")));
    assert_eq!(ask, Some(level("101.0", "3.0")));
    let bids = engine.top_n(localorderbook::Side::Bid, 10);
    assert_eq!(bids, vec![level("100.0", "2.0"), level("99.5", "1.0")]);
}

#[test]
fn gapped_replay_desynchronizes_again() {
    let mut engine = OrderBookEngine::new(500, 16);
    let mut controller = ResyncController::new(5);
    controller.begin(&mut engine);
    // the buffered stream itself lost a message: 11 then 14
    assert_eq!(
        engine.apply_diff(diff(11, 11, vec![level("99.5", "1.0")], vec![])),
        ApplyOutcome::Buffered
    );
    assert_eq!(
        engine.apply_diff(diff(14, 14, vec![level("98.0", "1.0")], vec![])),
        ApplyOutcome::Buffered
    );
    let snapshot = Snapshot {
        bids: vec![level("100.0", "2.0")],
        asks: vec![level("101.0", "3.0")],
        update_id: 10,
    };
    controller.snapshot_ready(&mut engine, &snapshot);
    // the first replayed diff landed, the gapped one desynchronized and
    // applied nothing
    assert_eq!(engine.sync_state(), SyncState::Unsynced);
    assert_eq!(engine.last_update_id(), 11);
    assert_eq!(engine.buffered_len(), 0);
    let bids = engine.top_n(localorderbook::Side::Bid, 10);
    assert_eq!(bids, vec![level("100.0", "2.0"), level("99.5", "1.0")]);
}

#[test]
fn buffer_overflow_drops_and_counts() {
    let mut engine = OrderBookEngine::new(500, 2);
    let mut controller = ResyncController::new(5);
    controller.begin(&mut engine);
    assert_eq!(engine.apply_diff(diff(1, 1, vec![], vec![])), ApplyOutcome::Buffered);
    assert_eq!(engine.apply_diff(diff(2, 2, vec![], vec![])), ApplyOutcome::Buffered);
    assert_eq!(engine.apply_diff(diff(3, 3, vec![], vec![])), ApplyOutcome::Dropped);
    assert_eq!(engine.dropped_diffs(), 1);
    assert_eq!(engine.buffered_len(), 2);
}

#[test]
fn resync_exhaustion_goes_fatal() {
    let mut controller = ResyncController::new(3);
    assert_eq!(controller.snapshot_failed(), ResyncAction::FetchSnapshot);
    assert_eq!(controller.snapshot_failed(), ResyncAction::FetchSnapshot);
    assert_eq!(controller.snapshot_failed(), ResyncAction::Fatal);
    // staying failed stays fatal
    assert_eq!(controller.snapshot_failed(), ResyncAction::Fatal);
}

#[test]
fn success_resets_the_failure_budget() {
    let mut engine = OrderBookEngine::new(500, 4);
    let mut controller = ResyncController::new(2);
    controller.begin(&mut engine);
    assert_eq!(controller.snapshot_failed(), ResyncAction::FetchSnapshot);
    let snapshot = Snapshot { bids: vec![], asks: vec![], update_id: 1 };
    controller.snapshot_ready(&mut engine, &snapshot);
    // the budget is fresh again
    assert_eq!(controller.snapshot_failed(), ResyncAction::FetchSnapshot);
    assert_eq!(controller.snapshot_failed(), ResyncAction::Fatal);
}

#[test]
fn rolling_history_keeps_the_last_capacity_values() {
    let mut state = SharedMarketState::new(3, 2);
    for v in [1u64, 2, 3, 4, 5] {
        state.record_trade(Exchange::Binance, v);
    }
    assert_eq!(state.trades(Exchange::Binance), vec![3, 4, 5]);
    assert_eq!(state.trades_len(Exchange::Binance), 3);
    assert_eq!(state.trade_capacity(Exchange::Binance), 3);
    assert_eq!(state.last_price(Exchange::Binance), 5);
    // the other exchange's slot is untouched
    assert_eq!(state.trades(Exchange::Bybit), Vec::<u64>::new());

    for v in [10u64, 20, 30] {
        state.record_kline(Exchange::Bybit, v);
    }
    assert_eq!(state.klines(Exchange::Bybit), vec![20, 30]);
    assert_eq!(state.klines(Exchange::Binance), Vec::<u64>::new());
}

#[test]
fn publish_writes_the_summary_wholesale() {
    let mut state = SharedMarketState::new(8, 8);
    assert_eq!(state.get_best_bid_ask(Exchange::Binance), None);

    let mut engine = OrderBookEngine::new(500, 4);
    engine.apply_snapshot(&Snapshot {
        bids: vec![level("100.0", "2.0")],
        asks: vec![level("101.0", "3.0")],
        update_id: 10,
    });
    state.publish_from_engine(Exchange::Binance, &engine);
    assert_eq!(
        state.get_best_bid_ask(Exchange::Binance),
        Some(BestBidAsk {
            bid_price: px("100.0"),
            bid_qty: px("2.0"),
            ask_price: px("101.0"),
            ask_qty: px("3.0"),
        })
    );
    assert_eq!(state.get_best_bid_ask(Exchange::Bybit), None);

    // a one-sided book publishes no quote
    let empty_side = OrderBookEngine::new(500, 4);
    state.publish_from_engine(Exchange::Binance, &empty_side);
    assert_eq!(state.get_best_bid_ask(Exchange::Binance), None);
}

#[test]
fn connectivity_flag_round_trips() {
    let mut state = SharedMarketState::new(2, 2);
    assert!(!state.is_connected(Exchange::Bybit));
    state.set_connected(Exchange::Bybit, true);
    assert!(state.is_connected(Exchange::Bybit));
    assert!(!state.is_connected(Exchange::Binance));
}

#[test]
fn secrets_hold_their_fields() {
    let secrets = Secrets {
        api_key: String::from("key"),
        api_secret: String::from("secret"),
    };
    assert_eq!(secrets.api_key, "key");
    assert_eq!(secrets.api_secret, "secret");
}
