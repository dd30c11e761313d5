//! A local, continuously synchronized replica of an exchange limit order
//! book, maintained from a point-in-time snapshot and a stream of diffs.
//!
//! Prices and quantities are fixed-point integers (eight decimal places),
//! so price-level bookkeeping never depends on floating-point equality.

pub mod book;
pub mod decimal;
pub mod engine;
pub mod history;
pub mod resync;
pub mod shared_state;

pub use book::PriceLevel;
pub use book::Side;
pub use book::PriceLevelStore;
