//! Process-wide market-state cache: the latest top-of-book summary and
//! bounded rolling histories per exchange, written by the feed engines and
//! read by strategy and telemetry consumers. The owning process serializes
//! access per exchange (a lock around this struct); the methods here are
//! the consistent reads and wholesale writes that callers rely on.

use vstd::prelude::*;

use crate::engine::BookModel;
use crate::engine::OrderBookEngine;
use crate::history::RollingHistory;
use crate::history::push_evict;

verus! {

/// API credentials, handed in by the process's configuration loader.
#[derive(Debug)]
pub struct Secrets {
    pub api_key: String,
    pub api_secret: String,
}

/// A snapshot-in-time projection of both sides' best levels; immutable
/// once published, replaced wholesale on each update.
#[derive(Clone, Copy, PartialEq, Eq, Structural, Debug)]
pub struct BestBidAsk {
    pub bid_price: u64,
    pub bid_qty: u64,
    pub ask_price: u64,
    pub ask_qty: u64,
}

/// The feeds this process replicates.
#[derive(Clone, Copy, PartialEq, Eq, Structural, Debug)]
pub enum Exchange {
    Binance,
    Bybit,
}

/// The top-of-book summary a book denotes: `None` while either side is
/// empty — "quote unavailable", never a zero price.
pub open spec fn book_summary(m: BookModel) -> Option<BestBidAsk> {
    if m.bids.len() > 0 && m.asks.len() > 0 {
        Some(BestBidAsk {
            bid_price: m.bids[0].price,
            bid_qty: m.bids[0].quantity,
            ask_price: m.asks[0].price,
            ask_qty: m.asks[0].quantity,
        })
    } else {
        None
    }
}

/// Derives the compact top-of-book summary from both stores' best levels;
/// pure, no side effects.
pub fn compute_best_bid_ask(engine: &OrderBookEngine) -> (r: Option<BestBidAsk>)
    requires
        engine.wf(),
    ensures
        r == book_summary(engine.model()),
{
    let (bid, ask) = engine.best_bid_ask();
    match (bid, ask) {
        (Some(b), Some(a)) => Some(BestBidAsk {
            bid_price: b.price,
            bid_qty: b.quantity,
            ask_price: a.price,
            ask_qty: a.quantity,
        }),
        _ => None,
    }
}

/// Per-exchange slot of the cache.
struct ExchangeMarket {
    ws_connected: bool,
    bba: Option<BestBidAsk>,
    trades: RollingHistory,
    klines: RollingHistory,
    last_price: u64,
}

/// One cache for the whole process: one slot per exchange, no state shared
/// between slots, so writers for different exchanges never couple.
pub struct SharedMarketState {
    binance: ExchangeMarket,
    bybit: ExchangeMarket,
}

impl SharedMarketState {
    spec fn slot(&self, ex: Exchange) -> ExchangeMarket {
        match ex {
            Exchange::Binance => self.binance,
            Exchange::Bybit => self.bybit,
        }
    }

    pub closed spec fn bba_of(&self, ex: Exchange) -> Option<BestBidAsk> {
        self.slot(ex).bba
    }

    pub closed spec fn trades_of(&self, ex: Exchange) -> Seq<u64> {
        self.slot(ex).trades.items()
    }

    pub closed spec fn klines_of(&self, ex: Exchange) -> Seq<u64> {
        self.slot(ex).klines.items()
    }

    pub closed spec fn trades_bound(&self, ex: Exchange) -> nat {
        self.slot(ex).trades.bound()
    }

    pub closed spec fn klines_bound(&self, ex: Exchange) -> nat {
        self.slot(ex).klines.bound()
    }

    pub closed spec fn last_price_of(&self, ex: Exchange) -> u64 {
        self.slot(ex).last_price
    }

    pub closed spec fn connected_of(&self, ex: Exchange) -> bool {
        self.slot(ex).ws_connected
    }

    pub closed spec fn wf(&self) -> bool {
        &&& self.binance.trades.wf()
        &&& self.binance.klines.wf()
        &&& self.bybit.trades.wf()
        &&& self.bybit.klines.wf()
    }

    /// Everything about `ex` other than its trade history.
    pub open spec fn same_but_trades(&self, other: &Self, ex: Exchange) -> bool {
        &&& self.bba_of(ex) == other.bba_of(ex)
        &&& self.klines_of(ex) == other.klines_of(ex)
        &&& self.connected_of(ex) == other.connected_of(ex)
        &&& self.trades_bound(ex) == other.trades_bound(ex)
        &&& self.klines_bound(ex) == other.klines_bound(ex)
    }

    /// The other exchange's whole slot.
    pub open spec fn same_other_slot(&self, other: &Self, ex: Exchange) -> bool {
        forall|e: Exchange| e != ex ==> {
            &&& self.bba_of(e) == other.bba_of(e)
            &&& self.trades_of(e) == other.trades_of(e)
            &&& self.klines_of(e) == other.klines_of(e)
            &&& self.trades_bound(e) == other.trades_bound(e)
            &&& self.klines_bound(e) == other.klines_bound(e)
            &&& self.last_price_of(e) == other.last_price_of(e)
            &&& self.connected_of(e) == other.connected_of(e)
        }
    }

    /// A fresh cache: no quote yet, empty histories of the configured
    /// capacities for every exchange.
    pub fn new(trade_capacity: usize, kline_capacity: usize) -> (r: SharedMarketState)
        requires
            trade_capacity >= 1,
            kline_capacity >= 1,
        ensures
            r.wf(),
            forall|e: Exchange| {
                &&& r.bba_of(e) == None::<BestBidAsk>
                &&& r.trades_of(e) =~= Seq::<u64>::empty()
                &&& r.klines_of(e) =~= Seq::<u64>::empty()
                &&& r.trades_bound(e) == trade_capacity
                &&& r.klines_bound(e) == kline_capacity
                &&& r.last_price_of(e) == 0
                &&& !r.connected_of(e)
            },
    {
        let r = SharedMarketState {
            binance: ExchangeMarket {
                ws_connected: false,
                bba: None,
                trades: RollingHistory::new(trade_capacity),
                klines: RollingHistory::new(kline_capacity),
                last_price: 0,
            },
            bybit: ExchangeMarket {
                ws_connected: false,
                bba: None,
                trades: RollingHistory::new(trade_capacity),
                klines: RollingHistory::new(kline_capacity),
                last_price: 0,
            },
        };
        r
    }

    /// A consistent read of the latest published quote.
    pub fn get_best_bid_ask(&self, ex: Exchange) -> (r: Option<BestBidAsk>)
        ensures
            r == self.bba_of(ex),
    {
        match ex {
            Exchange::Binance => self.binance.bba,
            Exchange::Bybit => self.bybit.bba,
        }
    }

    /// Recomputes the summary from the engine and writes it wholesale;
    /// no other slot and nothing else in this slot moves.
    pub fn publish_from_engine(&mut self, ex: Exchange, engine: &OrderBookEngine)
        requires
            old(self).wf(),
            engine.wf(),
        ensures
            final(self).wf(),
            final(self).bba_of(ex) == book_summary(engine.model()),
            final(self).trades_of(ex) == old(self).trades_of(ex),
            final(self).klines_of(ex) == old(self).klines_of(ex),
            final(self).trades_bound(ex) == old(self).trades_bound(ex),
            final(self).klines_bound(ex) == old(self).klines_bound(ex),
            final(self).last_price_of(ex) == old(self).last_price_of(ex),
            final(self).connected_of(ex) == old(self).connected_of(ex),
            final(self).same_other_slot(old(self), ex),
    {
        let bba = compute_best_bid_ask(engine);
        match ex {
            Exchange::Binance => {
                self.binance.bba = bba;
            },
            Exchange::Bybit => {
                self.bybit.bba = bba;
            },
        }
    }

    /// Records one trade print: appended to the bounded history (evicting
    /// the oldest once full) and remembered as the last traded price.
    pub fn record_trade(&mut self, ex: Exchange, price: u64)
        requires
            old(self).wf(),
        ensures
            final(self).wf(),
            final(self).trades_of(ex) == push_evict(
                old(self).trades_of(ex),
                old(self).trades_bound(ex),
                price,
            ),
            final(self).last_price_of(ex) == price,
            final(self).same_but_trades(old(self), ex),
            final(self).same_other_slot(old(self), ex),
    {
        match ex {
            Exchange::Binance => {
                self.binance.trades.record(price);
                self.binance.last_price = price;
            },
            Exchange::Bybit => {
                self.bybit.trades.record(price);
                self.bybit.last_price = price;
            },
        }
    }

    /// Records one kline value into the bounded history.
    pub fn record_kline(&mut self, ex: Exchange, value: u64)
        requires
            old(self).wf(),
        ensures
            final(self).wf(),
            final(self).klines_of(ex) == push_evict(
                old(self).klines_of(ex),
                old(self).klines_bound(ex),
                value,
            ),
            final(self).trades_of(ex) == old(self).trades_of(ex),
            final(self).bba_of(ex) == old(self).bba_of(ex),
            final(self).trades_bound(ex) == old(self).trades_bound(ex),
            final(self).klines_bound(ex) == old(self).klines_bound(ex),
            final(self).last_price_of(ex) == old(self).last_price_of(ex),
            final(self).connected_of(ex) == old(self).connected_of(ex),
            final(self).same_other_slot(old(self), ex),
    {
        match ex {
            Exchange::Binance => {
                self.binance.klines.record(value);
            },
            Exchange::Bybit => {
                self.bybit.klines.record(value);
            },
        }
    }

    /// The recorded trades, oldest first.
    pub fn trades(&self, ex: Exchange) -> (r: Vec<u64>)
        ensures
            r@ == self.trades_of(ex),
    {
        match ex {
            Exchange::Binance => self.binance.trades.to_vec(),
            Exchange::Bybit => self.bybit.trades.to_vec(),
        }
    }

    /// The recorded klines, oldest first.
    pub fn klines(&self, ex: Exchange) -> (r: Vec<u64>)
        ensures
            r@ == self.klines_of(ex),
    {
        match ex {
            Exchange::Binance => self.binance.klines.to_vec(),
            Exchange::Bybit => self.bybit.klines.to_vec(),
        }
    }

    /// How many trades are currently held for `ex`.
    pub fn trades_len(&self, ex: Exchange) -> (r: usize)
        ensures
            r == self.trades_of(ex).len(),
    {
        match ex {
            Exchange::Binance => self.binance.trades.len(),
            Exchange::Bybit => self.bybit.trades.len(),
        }
    }

    /// The fixed trade-history capacity configured at startup.
    pub fn trade_capacity(&self, ex: Exchange) -> (r: usize)
        ensures
            r == self.trades_bound(ex),
    {
        match ex {
            Exchange::Binance => self.binance.trades.capacity(),
            Exchange::Bybit => self.bybit.trades.capacity(),
        }
    }

    pub fn last_price(&self, ex: Exchange) -> (r: u64)
        ensures
            r == self.last_price_of(ex),
    {
        match ex {
            Exchange::Binance => self.binance.last_price,
            Exchange::Bybit => self.bybit.last_price,
        }
    }

    pub fn set_connected(&mut self, ex: Exchange, up: bool)
        requires
            old(self).wf(),
        ensures
            final(self).wf(),
            final(self).connected_of(ex) == up,
            final(self).bba_of(ex) == old(self).bba_of(ex),
            final(self).trades_of(ex) == old(self).trades_of(ex),
            final(self).klines_of(ex) == old(self).klines_of(ex),
            final(self).trades_bound(ex) == old(self).trades_bound(ex),
            final(self).klines_bound(ex) == old(self).klines_bound(ex),
            final(self).last_price_of(ex) == old(self).last_price_of(ex),
            final(self).same_other_slot(old(self), ex),
    {
        match ex {
            Exchange::Binance => {
                self.binance.ws_connected = up;
            },
            Exchange::Bybit => {
                self.bybit.ws_connected = up;
            },
        }
    }

    pub fn is_connected(&self, ex: Exchange) -> (r: bool)
        ensures
            r == self.connected_of(ex),
    {
        match ex {
            Exchange::Binance => self.binance.ws_connected,
            Exchange::Bybit => self.bybit.ws_connected,
        }
    }
}

} // verus!
