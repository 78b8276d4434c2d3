use ag_core::candle::round_div;
use ag_core::parse::{order_type_from_text, side_from_text, FieldKind, ParseError};
use ag_core::tabular::parse_csv_candles;
use ag_core::types::{order_type_t, side_t};

#[test]
fn test_csv_parser_basic() {
    let csv_data = "\
timestamp,open,high,low,close,volume
1609459200000,42000.5,42500.0,41500.0,42200.0,1500.5
1609459260000,42200.0,42800.0,42100.0,42700.0,2000.3
";

    let candles = parse_csv_candles(csv_data.as_bytes(), 500_000).unwrap();
    assert_eq!(candles.len(), 2);

    let candle1 = candles[0].as_ref().unwrap();
    assert_eq!(candle1.ts_open, 1609459200000);
    assert_eq!(candle1.open_tick, 84001); // 42000.5 / 0.5

    let candle2 = candles[1].as_ref().unwrap();
    assert_eq!(candle2.ts_open, 1609459260000);
}

#[test]
fn test_csv_parser_flexible_headers() {
    let csv_data = "\
time,o,h,l,c,vol
1609459200000,42000,42500,41500,42200,1500
";

    let candles = parse_csv_candles(csv_data.as_bytes(), 1_000_000).unwrap();
    let candle = candles[0].as_ref().unwrap();
    assert_eq!(candle.open_tick, 42000);
    assert_eq!(candle.high_tick, 42500);
}

#[test]
fn test_csv_parser_invalid_data() {
    let csv_data = "\
timestamp,open,high,low,close,volume
1609459200000,42500,42000,41500,42200,1500
"; // high < open (will fail validation)

    let candles = parse_csv_candles(csv_data.as_bytes(), 1_000_000).unwrap();

    // This should return an error due to invalid OHLC
    assert!(candles[0].is_err());
}

#[test]
fn header_aliases_ignore_case() {
    let csv_data = "\
TIME,Open,HIGH,Low,CLOSE,Volume
1609459200000,42000,42500,41500,42200,1500
";
    let candles = parse_csv_candles(csv_data.as_bytes(), 1_000_000).unwrap();
    let c = candles[0].as_ref().unwrap();
    assert_eq!(c.open_tick, 42000);
    assert_eq!(c.low_tick, 41500);
}

#[test]
fn missing_required_column_fails_the_header() {
    let csv_data = "\
time,open,high,low,close
1609459200000,42000,42500,41500,42200
";
    assert_eq!(
        parse_csv_candles(csv_data.as_bytes(), 1_000_000).err(),
        Some(ParseError::MissingColumn(FieldKind::Volume))
    );
}

#[test]
fn empty_input_fails_the_header() {
    assert_eq!(
        parse_csv_candles(b"", 1_000_000).err(),
        Some(ParseError::MissingColumn(FieldKind::Open))
    );
}

#[test]
fn unparsable_number_is_a_record_error() {
    let csv_data = "\
time,open,high,low,close,volume
1609459200000,oops,42500,41500,42200,1500
1609459260000,42200,42800,42100,42700,2000
";
    let candles = parse_csv_candles(csv_data.as_bytes(), 1_000_000).unwrap();
    assert_eq!(candles.len(), 2);
    assert_eq!(candles[0], Err(ParseError::InvalidValue(FieldKind::Open)));
    // The stream continues past the bad record.
    assert!(candles[1].is_ok());
}

#[test]
fn close_time_defaults_to_one_minute_after_open() {
    let csv_data = "\
time,open,high,low,close,volume
1609459200000,42000,42500,41500,42200,1500
";
    let candles = parse_csv_candles(csv_data.as_bytes(), 1_000_000).unwrap();
    let c = candles[0].as_ref().unwrap();
    assert_eq!(c.ts_close, 1609459200000 + 60000);
    assert_eq!(c.trade_count, 0);
}

#[test]
fn open_time_derives_from_close_time() {
    let csv_data = "\
close_time,open,high,low,close,volume,trades
1609459260000,42000,42500,41500,42200,1500,42
";
    let candles = parse_csv_candles(csv_data.as_bytes(), 1_000_000).unwrap();
    let c = candles[0].as_ref().unwrap();
    assert_eq!(c.ts_open, 1609459260000 - 60000);
    assert_eq!(c.ts_close, 1609459260000);
    assert_eq!(c.trade_count, 42);
}

#[test]
fn missing_timestamp_column_is_a_record_error() {
    let csv_data = "\
open,high,low,close,volume
42000,42500,41500,42200,1500
";
    let candles = parse_csv_candles(csv_data.as_bytes(), 1_000_000).unwrap();
    assert_eq!(candles[0], Err(ParseError::MissingTimestamp));
}

#[test]
fn volume_fraction_rounds_at_the_seventh_digit() {
    let csv_data = "\
time,open,high,low,close,volume
1609459200000,42000,42500,41500,42200,1500.1234567
";
    let candles = parse_csv_candles(csv_data.as_bytes(), 1_000_000).unwrap();
    let c = candles[0].as_ref().unwrap();
    assert_eq!(c.volume_scaled, 1_500_123_457);
}

#[test]
fn prices_quantize_to_the_nearest_tick() {
    // Tick size 0.25: 42000.5 / 0.25 = 168002 exactly.
    let csv_data = "\
time,open,high,low,close,volume
1609459200000,42000.5,42500.0,41500.25,42200.75,1500
";
    let candles = parse_csv_candles(csv_data.as_bytes(), 250_000).unwrap();
    let c = candles[0].as_ref().unwrap();
    assert_eq!(c.open_tick, 168002);
    assert_eq!(c.high_tick, 170000);
    assert_eq!(c.low_tick, 166001);
    assert_eq!(c.close_tick, 168803);
}

#[test]
fn rounding_is_nearest_ties_away_from_zero() {
    assert_eq!(round_div(5, 2), 3);
    assert_eq!(round_div(-5, 2), -3);
    assert_eq!(round_div(7, 2), 4);
    assert_eq!(round_div(1, 3), 0);
    assert_eq!(round_div(2, 3), 1);
    assert_eq!(round_div(-1, 3), 0);
    assert_eq!(round_div(-2, 3), -1);
    assert_eq!(round_div(6, 3), 2);
}

#[test]
fn sides_and_order_types_decode_from_text() {
    let chars = |s: &str| s.chars().collect::<Vec<char>>();
    assert_eq!(side_from_text(&chars("BUY")), Some(side_t::SIDE_BUY));
    assert_eq!(side_from_text(&chars("buy")), Some(side_t::SIDE_BUY));
    assert_eq!(side_from_text(&chars("Sell")), Some(side_t::SIDE_SELL));
    assert_eq!(side_from_text(&chars("hold")), None);
    assert_eq!(
        order_type_from_text(&chars("LIMIT")),
        Some(order_type_t::ORDER_TYPE_LIMIT)
    );
    assert_eq!(
        order_type_from_text(&chars("Market")),
        Some(order_type_t::ORDER_TYPE_MARKET)
    );
    assert_eq!(order_type_from_text(&chars("stop")), None);
}

#[test]
fn unreadable_record_is_a_record_error() {
    // A field that is not UTF-8 makes the reader fail that one record; the
    // stream continues past it.
    let mut data: Vec<u8> = Vec::new();
    data.extend_from_slice(b"time,open,high,low,close,volume\n");
    data.extend_from_slice(b"1609459200000,42\xff00,42500,41500,42200,1500\n");
    data.extend_from_slice(b"1609459260000,42200,42800,42100,42700,2000\n");
    let candles = parse_csv_candles(&data, 1_000_000).unwrap();
    assert_eq!(candles.len(), 2);
    assert_eq!(candles[0], Err(ParseError::BadRecord));
    assert!(candles[1].is_ok());
}

#[test]
fn wrong_column_count_is_a_record_error() {
    let csv_data = "\
time,open,high,low,close,volume
1609459200000,42000,42500,41500,42200
";
    let candles = parse_csv_candles(csv_data.as_bytes(), 1_000_000).unwrap();
    assert_eq!(candles[0], Err(ParseError::WrongColumnCount));
}
