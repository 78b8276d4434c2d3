use ag_core::candle::Candle;
use ag_core::events::{AggTrade, MarketEvent};

#[test]
fn test_candle_is_pod() {
    // Verify size is what we expect (8 i64s = 64 bytes)
    assert_eq!(std::mem::size_of::<Candle>(), 64);

    // Verify alignment
    assert_eq!(std::mem::align_of::<Candle>(), 8);
}

#[test]
fn test_valid_candle() {
    let candle = Candle {
        ts_open: 1609459200000,
        ts_close: 1609459260000,
        open_tick: 4200,
        high_tick: 4250,
        low_tick: 4150,
        close_tick: 4220,
        volume_scaled: 1_500_000_000, // 1500.0
        trade_count: 42,
    };

    assert!(candle.is_valid());
}

#[test]
fn test_invalid_candle_timestamps() {
    let mut candle = Candle {
        ts_open: 1609459260000,
        ts_close: 1609459200000, // Close before open
        open_tick: 4200,
        high_tick: 4250,
        low_tick: 4150,
        close_tick: 4220,
        volume_scaled: 1_500_000_000,
        trade_count: 42,
    };

    assert!(!candle.is_valid());

    candle.ts_open = -1; // Negative timestamp
    candle.ts_close = 1609459200000;
    assert!(!candle.is_valid());
}

#[test]
fn test_invalid_candle_ohlc() {
    let candle = Candle {
        ts_open: 1609459200000,
        ts_close: 1609459260000,
        open_tick: 4200,
        high_tick: 4150, // High < Low
        low_tick: 4250,
        close_tick: 4220,
        volume_scaled: 1_500_000_000,
        trade_count: 42,
    };

    assert!(!candle.is_valid());
}

#[test]
fn test_candle_default() {
    let candle = Candle::default();

    // Default candle should be all zeros
    assert_eq!(candle.ts_open, 0);
    assert_eq!(candle.ts_close, 0);
    assert_eq!(candle.open_tick, 0);
    assert_eq!(candle.high_tick, 0);
    assert_eq!(candle.low_tick, 0);
    assert_eq!(candle.close_tick, 0);
    assert_eq!(candle.volume_scaled, 0);
    assert_eq!(candle.trade_count, 0);

    // Default candle should not be valid
    assert!(!candle.is_valid());
}

#[test]
fn test_invalid_open_outside_range() {
    let candle = Candle {
        ts_open: 1609459200000,
        ts_close: 1609459260000,
        open_tick: 5000, // Open > High
        high_tick: 4250,
        low_tick: 4150,
        close_tick: 4220,
        volume_scaled: 1_500_000_000,
        trade_count: 42,
    };

    assert!(!candle.is_valid());
}

#[test]
fn test_invalid_close_outside_range() {
    let candle = Candle {
        ts_open: 1609459200000,
        ts_close: 1609459260000,
        open_tick: 4200,
        high_tick: 4250,
        low_tick: 4150,
        close_tick: 4100, // Close < Low
        volume_scaled: 1_500_000_000,
        trade_count: 42,
    };

    assert!(!candle.is_valid());
}

#[test]
fn test_invalid_negative_volume() {
    let candle = Candle {
        ts_open: 1609459200000,
        ts_close: 1609459260000,
        open_tick: 4200,
        high_tick: 4250,
        low_tick: 4150,
        close_tick: 4220,
        volume_scaled: -1000,
        trade_count: 42,
    };

    assert!(!candle.is_valid());
}

#[test]
fn test_invalid_negative_trade_count() {
    let candle = Candle {
        ts_open: 1609459200000,
        ts_close: 1609459260000,
        open_tick: 4200,
        high_tick: 4250,
        low_tick: 4150,
        close_tick: 4220,
        volume_scaled: 1_500_000_000,
        trade_count: -1,
    };

    assert!(!candle.is_valid());
}

#[test]
fn test_edge_case_equal_ohlc() {
    // All prices equal (flat candle)
    let candle = Candle {
        ts_open: 1609459200000,
        ts_close: 1609459260000,
        open_tick: 4200,
        high_tick: 4200,
        low_tick: 4200,
        close_tick: 4200,
        volume_scaled: 1_500_000_000,
        trade_count: 42,
    };

    assert!(candle.is_valid());
}

#[test]
fn test_edge_case_zero_volume() {
    let candle = Candle {
        ts_open: 1609459200000,
        ts_close: 1609459260000,
        open_tick: 4200,
        high_tick: 4250,
        low_tick: 4150,
        close_tick: 4220,
        volume_scaled: 0,
        trade_count: 0,
    };

    assert!(candle.is_valid());
}

#[test]
fn test_market_event_timestamp() {
    let candle = Candle {
        ts_open: 1609459200000,
        ts_close: 1609459260000,
        open_tick: 4200,
        high_tick: 4250,
        low_tick: 4150,
        close_tick: 4220,
        volume_scaled: 1_500_000_000,
        trade_count: 42,
    };

    let event = MarketEvent::Bar(candle);
    assert_eq!(event.timestamp(), 1609459200000);
    assert!(event.is_bar());
    assert!(!event.is_trade());
}

#[test]
fn test_trade_event_accessors() {
    let trade = AggTrade { ts_ms: 1700000000000, price_tick: 42000, qty_scaled: 1_000_000, side: 0 };
    let event = MarketEvent::Trade(trade);
    assert_eq!(event.timestamp(), 1700000000000);
    assert!(event.is_trade());
    assert!(!event.is_bar());
}

#[test]
fn test_ingestion_metrics_counters() {
    let mut m = ag_core::events::IngestionMetrics::new();
    let s0 = m.snapshot();
    assert_eq!(s0.candles_processed, 0);
    assert_eq!(s0.candles_rejected, 0);
    assert_eq!(s0.parse_errors, 0);

    m.record_processed();
    m.record_processed();
    m.record_rejected();
    m.record_parse_error();

    let s1 = m.snapshot();
    assert_eq!(s1.candles_processed, 2);
    assert_eq!(s1.candles_rejected, 1);
    assert_eq!(s1.parse_errors, 1);
}
