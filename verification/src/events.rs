//! Unified market event types and ingestion bookkeeping.

use vstd::prelude::*;

use crate::candle::Candle;

verus! {

/// Source type for market data.
#[derive(Debug, Clone, Copy, PartialEq, Eq, Structural)]
pub enum SourceType {
    Csv,
    Json,
    Parquet,
    WebSocket,
}

/// Data ingestion mode.
#[derive(Debug, Clone, Copy, PartialEq, Eq, Structural)]
pub enum DataMode {
    /// Aggregate trades.
    AggTrades(SourceType),
    /// OHLC bar data.
    OHLC(SourceType),
    /// Raw tick data.
    Ticks(SourceType),
}

/// Aggregate trade event: timestamp, tick-quantized price, micro-scaled
/// quantity, and the aggressor side as a wire code (`0` = buy, `1` = sell).
#[derive(Copy, Clone, Debug, PartialEq, Eq, Structural)]
pub struct AggTrade {
    pub ts_ms: i64,
    pub price_tick: i64,
    pub qty_scaled: i64,
    pub side: u8,
}

/// Unified market event wrapper: a trade print or an OHLC bar.
#[derive(Debug, Clone, Copy)]
pub enum MarketEvent {
    /// Trade event.
    Trade(AggTrade),
    /// Bar (OHLC) event.
    Bar(Candle),
}

impl MarketEvent {
    /// The timestamp of an event: a trade's print time, a bar's open time.
    pub open spec fn spec_timestamp(self) -> i64 {
        match self {
            MarketEvent::Trade(trade) => trade.ts_ms,
            MarketEvent::Bar(candle) => candle.ts_open,
        }
    }

    /// Get the timestamp of this event.
    pub fn timestamp(&self) -> (r: i64)
        ensures
            r == self.spec_timestamp(),
    {
        match self {
            MarketEvent::Trade(trade) => trade.ts_ms,
            MarketEvent::Bar(candle) => candle.ts_open,
        }
    }

    /// Check if this is a trade event.
    pub fn is_trade(&self) -> (r: bool)
        ensures
            r == (self is Trade),
    {
        match self {
            MarketEvent::Trade(_) => true,
            MarketEvent::Bar(_) => false,
        }
    }

    /// Check if this is a bar event.
    pub fn is_bar(&self) -> (r: bool)
        ensures
            r == (self is Bar),
    {
        match self {
            MarketEvent::Trade(_) => false,
            MarketEvent::Bar(_) => true,
        }
    }
}

/// Counters for candle ingestion, owned by the pipeline that feeds the
/// engine and bumped as records are handled.
#[derive(Debug, Clone, Copy, PartialEq, Eq, Structural)]
pub struct IngestionMetrics {
    pub candles_processed: u64,
    pub candles_rejected: u64,
    pub parse_errors: u64,
}

/// A point-in-time copy of the ingestion counters.
#[derive(Debug, Clone, Copy, PartialEq, Eq, Structural)]
pub struct IngestionSnapshot {
    pub candles_processed: u64,
    pub candles_rejected: u64,
    pub parse_errors: u64,
}

impl IngestionMetrics {
    /// Fresh counters, all zero.
    pub fn new() -> (r: Self)
        ensures
            r.candles_processed == 0,
            r.candles_rejected == 0,
            r.parse_errors == 0,
    {
        IngestionMetrics { candles_processed: 0, candles_rejected: 0, parse_errors: 0 }
    }

    /// Copy the counters out.
    pub fn snapshot(&self) -> (r: IngestionSnapshot)
        ensures
            r.candles_processed == self.candles_processed,
            r.candles_rejected == self.candles_rejected,
            r.parse_errors == self.parse_errors,
    {
        IngestionSnapshot {
            candles_processed: self.candles_processed,
            candles_rejected: self.candles_rejected,
            parse_errors: self.parse_errors,
        }
    }

    /// Count one successfully processed candle. The counter sticks at its
    /// maximum rather than wrapping.
    pub fn record_processed(&mut self)
        ensures
            final(self).candles_processed == if old(self).candles_processed < u64::MAX {
                old(self).candles_processed + 1
            } else {
                u64::MAX as int
            },
            final(self).candles_rejected == old(self).candles_rejected,
            final(self).parse_errors == old(self).parse_errors,
    {
        if self.candles_processed < u64::MAX {
            self.candles_processed = self.candles_processed + 1;
        }
    }

    /// Count one rejected candle. The counter sticks at its maximum rather
    /// than wrapping.
    pub fn record_rejected(&mut self)
        ensures
            final(self).candles_rejected == if old(self).candles_rejected < u64::MAX {
                old(self).candles_rejected + 1
            } else {
                u64::MAX as int
            },
            final(self).candles_processed == old(self).candles_processed,
            final(self).parse_errors == old(self).parse_errors,
    {
        if self.candles_rejected < u64::MAX {
            self.candles_rejected = self.candles_rejected + 1;
        }
    }

    /// Count one parse error. The counter sticks at its maximum rather than
    /// wrapping.
    pub fn record_parse_error(&mut self)
        ensures
            final(self).parse_errors == if old(self).parse_errors < u64::MAX {
                old(self).parse_errors + 1
            } else {
                u64::MAX as int
            },
            final(self).candles_processed == old(self).candles_processed,
            final(self).candles_rejected == old(self).candles_rejected,
    {
        if self.parse_errors < u64::MAX {
            self.parse_errors = self.parse_errors + 1;
        }
    }
}

} // verus!
