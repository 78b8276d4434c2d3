//! Single-instrument trade-execution and book-keeping engine for market
//! backtesting: given a stream of price ticks and order commands it
//! simulates fills, tracks a net position, accrues maker/taker fees and
//! maintains realized and unrealized PnL, all in exact integer arithmetic.
//!
//! - [`ledger`] applies one fill to cash, position, entry cost and
//!   realized PnL;
//! - [`engine`] owns the account state and the resting order book and
//!   decides, for every tick or order command, what fills;
//! - [`laws`] states and proves the properties the engine keeps across
//!   calls;
//! - [`candle`], [`events`], [`parse`] and [`tabular`] model OHLC bars and
//!   map tabular records onto them;
//! - [`types`] holds the shared value types and error statuses.

pub mod candle;
pub mod engine;
pub mod events;
pub mod laws;
pub mod ledger;
pub mod parse;
pub mod tabular;
pub mod types;
