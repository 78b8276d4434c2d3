use ag_core::engine::{Config, Engine};
use ag_core::ledger::MONEY_PER_CURRENCY;
use ag_core::types::{order_t, order_type_t, side_t, tick_event_t, BatchError, EngineError};

const M: i128 = MONEY_PER_CURRENCY;

fn config(maker_bps: i64, taker_bps: i64, spread_bps: i64, cash: i64, tick_micro: i64) -> Config {
    Config {
        maker_fee_bps: maker_bps,
        taker_fee_bps: taker_bps,
        spread_bps,
        initial_cash_micro: cash * 1_000_000,
        tick_size_micro: tick_micro,
    }
}

fn tick(ts_ms: i64, price_tick: i64) -> tick_event_t {
    tick_event_t { ts_ms, price_tick, qty: 1_000_000, side: side_t::SIDE_SELL }
}

fn limit(side: side_t, qty: i64, price_tick: i64) -> order_t {
    order_t { order_id: 0, type_: order_type_t::ORDER_TYPE_LIMIT, side, qty, price_tick }
}

fn market(side: side_t, qty: i64) -> order_t {
    order_t { order_id: 0, type_: order_type_t::ORDER_TYPE_MARKET, side, qty, price_tick: 0 }
}

#[test]
fn test_engine_lifecycle() {
    let cfg = config(1, 2, 2, 10_000, 1_000_000);
    let engine = Engine::create(cfg);
    assert!(engine.is_ok());

    let snapshot = engine.unwrap().get_snapshot();
    assert_eq!(snapshot.cash_m, 10_000 * M);
    assert_eq!(snapshot.position_micro, 0);
}

#[test]
fn fresh_snapshot_matches_configuration() {
    // Valid configuration: cash, flat position, zero PnL, equity == cash.
    let mut e = Engine::create(config(1, 2, 20, 100_000, 1_000_000)).unwrap();
    let s = e.get_snapshot();
    assert_eq!(s.cash_m, 100_000 * M);
    assert_eq!(s.position_micro, 0);
    assert_eq!(s.entry_cost_m, 0);
    assert_eq!(s.realized_pnl_m, 0);
    assert_eq!(s.unrealized_pnl_m, 0);
    assert_eq!(s.equity_m, 100_000 * M);
    assert_eq!(s.ts_ms, 0);
    assert_eq!(s.mark_price_tick, None);

    // Reset restores exactly that state.
    e.step_tick(tick(5, 42_000)).unwrap();
    e.place_order(limit(side_t::SIDE_BUY, 1_000_000, 41_000)).unwrap();
    e.reset();
    let s2 = e.get_snapshot();
    assert_eq!(s2, s);
}

#[test]
fn invalid_configurations_are_rejected() {
    assert_eq!(
        Engine::create(config(1, 2, 20, 100_000, 0)).err(),
        Some(EngineError::InvalidConfig)
    );
    assert_eq!(
        Engine::create(config(-1, 2, 20, 100_000, 1_000_000)).err(),
        Some(EngineError::InvalidConfig)
    );
    assert_eq!(
        Engine::create(config(1, -2, 20, 100_000, 1_000_000)).err(),
        Some(EngineError::InvalidConfig)
    );
    assert_eq!(
        Engine::create(config(1, 2, -1, 100_000, 1_000_000)).err(),
        Some(EngineError::InvalidConfig)
    );
}

#[test]
fn limit_buy_round_trip_scenario() {
    // Maker rate 0.01%, taker 0.02%, half-spread 0.1%, cash 100000, tick 1.0.
    let mut e = Engine::create(config(1, 2, 20, 100_000, 1_000_000)).unwrap();

    let id = e.place_order(limit(side_t::SIDE_BUY, 1_000_000, 42_000)).unwrap();
    assert_eq!(id, 0);

    // A print below the limit fills the whole order at the limit price.
    e.step_tick(tick(1, 41_990)).unwrap();
    let s = e.get_snapshot();

    // Fee is 42000 * 0.0001 = 4.2; cash = 100000 - 42000 - 4.2 = 57995.8.
    let fee: i128 = 42 * M / 10;
    assert_eq!(s.cash_m, 100_000 * M - 42_000 * M - fee);
    assert_eq!(s.position_micro, 1_000_000);
    // Average entry price is the limit price: cost 42000 for one unit.
    assert_eq!(s.entry_cost_m, 42_000 * M);
    assert_eq!(s.realized_pnl_m, 0);
    // Unrealized at mark 41990: 1 * (41990 - 42000) = -10.
    assert_eq!(s.unrealized_pnl_m, -10 * M);
    assert_eq!(s.equity_m, s.cash_m - 10 * M);
    assert_eq!(s.ts_ms, 1);
    assert_eq!(s.mark_price_tick, Some(41_990));

    // The filled order no longer rests.
    assert_eq!(e.cancel_order(id), Err(EngineError::OrderNotFound));
}

#[test]
fn market_sell_scenario() {
    let mut e = Engine::create(config(1, 2, 20, 100_000, 1_000_000)).unwrap();
    e.place_order(limit(side_t::SIDE_BUY, 1_000_000, 42_000)).unwrap();
    e.step_tick(tick(1, 41_990)).unwrap();
    let cash_after_fill = e.get_snapshot().cash_m;

    // Mark update only: nothing rests, so nothing can cross.
    e.step_tick(tick(2, 42_100)).unwrap();
    let s1 = e.get_snapshot();
    assert_eq!(s1.cash_m, cash_after_fill);
    assert_eq!(s1.unrealized_pnl_m, 100 * M);

    // Market sell: execution price 42100 * (1 - 0.001) = 42057.9,
    // taker fee 42057.9 * 0.0002 = 8.41158.
    e.place_order(market(side_t::SIDE_SELL, 1_000_000)).unwrap();
    let s2 = e.get_snapshot();
    let proceeds: i128 = 420_579 * M / 10;
    let fee: i128 = 841_158 * M / 100_000;
    assert_eq!(s2.cash_m, cash_after_fill + proceeds - fee);
    assert_eq!(s2.position_micro, 0);
    // Realized PnL: 1 * (42057.9 - 42000) = 57.9.
    assert_eq!(s2.realized_pnl_m, 579 * M / 10);
    assert_eq!(s2.entry_cost_m, 0);
    assert_eq!(s2.unrealized_pnl_m, 0);
    assert_eq!(s2.equity_m, s2.cash_m);
}

#[test]
fn non_crossing_ticks_change_only_the_mark() {
    let mut e = Engine::create(config(1, 2, 20, 100_000, 1_000_000)).unwrap();
    let id = e.place_order(limit(side_t::SIDE_BUY, 1_000_000, 100)).unwrap();

    e.step_tick(tick(1, 200)).unwrap();
    e.step_tick(tick(2, 150)).unwrap();
    e.step_tick(tick(3, 101)).unwrap();

    let s = e.get_snapshot();
    assert_eq!(s.cash_m, 100_000 * M);
    assert_eq!(s.position_micro, 0);
    assert_eq!(s.realized_pnl_m, 0);
    assert_eq!(s.mark_price_tick, Some(101));
    assert_eq!(s.ts_ms, 3);

    // The order still rests: it can be cancelled.
    assert_eq!(e.cancel_order(id), Ok(()));
}

#[test]
fn flip_through_zero() {
    // Zero fees keep the flip arithmetic bare.
    let mut e = Engine::create(config(0, 0, 0, 100_000, 1_000_000)).unwrap();

    // Open a long of 1 unit at 100.
    e.place_order(limit(side_t::SIDE_BUY, 1_000_000, 100)).unwrap();
    e.step_tick(tick(1, 100)).unwrap();

    // Sell 3 units at 110: closes the long, opens a short of 2 at 110.
    e.place_order(limit(side_t::SIDE_SELL, 3_000_000, 110)).unwrap();
    e.step_tick(tick(2, 110)).unwrap();

    let s = e.get_snapshot();
    assert_eq!(s.realized_pnl_m, 10 * M);
    assert_eq!(s.position_micro, -2_000_000);
    assert_eq!(s.entry_cost_m, 220 * M);
    // Cash: 100000 - 100 + 330 = 100230.
    assert_eq!(s.cash_m, 100_230 * M);
    // Unrealized at mark 110 with entry 110 is zero.
    assert_eq!(s.unrealized_pnl_m, 0);
}

#[test]
fn partial_close_keeps_average_entry() {
    let mut e = Engine::create(config(0, 0, 0, 100_000, 1_000_000)).unwrap();

    // Long 2 units at 100.
    e.place_order(limit(side_t::SIDE_BUY, 2_000_000, 100)).unwrap();
    e.step_tick(tick(1, 100)).unwrap();

    // Sell 1 unit at 105: realizes 1 * (105 - 100) = 5.
    e.place_order(limit(side_t::SIDE_SELL, 1_000_000, 105)).unwrap();
    e.step_tick(tick(2, 105)).unwrap();

    let s = e.get_snapshot();
    assert_eq!(s.realized_pnl_m, 5 * M);
    assert_eq!(s.position_micro, 1_000_000);
    assert_eq!(s.entry_cost_m, 100 * M);
}

#[test]
fn cancellation_has_no_effect_on_money() {
    let mut e = Engine::create(config(1, 2, 20, 100_000, 1_000_000)).unwrap();
    let id = e.place_order(limit(side_t::SIDE_BUY, 1_000_000, 100)).unwrap();

    assert_eq!(e.cancel_order(id), Ok(()));

    // A print that would have crossed the cancelled order fills nothing.
    e.step_tick(tick(1, 50)).unwrap();
    let s = e.get_snapshot();
    assert_eq!(s.cash_m, 100_000 * M);
    assert_eq!(s.position_micro, 0);
    assert_eq!(s.realized_pnl_m, 0);

    // The identifier is gone for good: it is never reused.
    assert_eq!(e.cancel_order(id), Err(EngineError::OrderNotFound));
}

#[test]
fn higher_fee_rate_means_less_cash() {
    let mut a = Engine::create(config(1, 2, 20, 100_000, 1_000_000)).unwrap();
    let mut b = Engine::create(config(2, 2, 20, 100_000, 1_000_000)).unwrap();
    for e in [&mut a, &mut b] {
        e.place_order(limit(side_t::SIDE_BUY, 1_000_000, 42_000)).unwrap();
        e.step_tick(tick(1, 41_990)).unwrap();
    }
    assert!(b.get_snapshot().cash_m < a.get_snapshot().cash_m);
}

#[test]
fn order_book_fills_in_insertion_order() {
    let mut e = Engine::create(config(0, 0, 0, 100_000, 1_000_000)).unwrap();
    // Two resting buys; one crossing print fills both fully at their own
    // limit prices.
    e.place_order(limit(side_t::SIDE_BUY, 1_000_000, 100)).unwrap();
    e.place_order(limit(side_t::SIDE_BUY, 1_000_000, 102)).unwrap();
    e.step_tick(tick(1, 99)).unwrap();
    let s = e.get_snapshot();
    assert_eq!(s.position_micro, 2_000_000);
    assert_eq!(s.entry_cost_m, 202 * M);
    assert_eq!(s.cash_m, (100_000 - 202) * M);
}

#[test]
fn market_order_needs_a_mark_price() {
    let mut e = Engine::create(config(1, 2, 20, 100_000, 1_000_000)).unwrap();
    assert_eq!(
        e.place_order(market(side_t::SIDE_BUY, 1_000_000)),
        Err(EngineError::NoMarketPrice)
    );
}

#[test]
fn non_positive_quantity_is_rejected() {
    let mut e = Engine::create(config(1, 2, 20, 100_000, 1_000_000)).unwrap();
    assert_eq!(
        e.place_order(limit(side_t::SIDE_BUY, 0, 100)),
        Err(EngineError::InvalidQuantity)
    );
    assert_eq!(
        e.place_order(limit(side_t::SIDE_BUY, -5, 100)),
        Err(EngineError::InvalidQuantity)
    );
}

#[test]
fn wire_codes_are_validated() {
    let mut e = Engine::create(config(1, 2, 20, 100_000, 1_000_000)).unwrap();

    // An unrecognized side is rejected before the mark-price update.
    assert_eq!(e.step_tick_raw(1, 42_000, 1_000_000, 7), Err(EngineError::InvalidSide));
    assert_eq!(e.get_snapshot().mark_price_tick, None);

    assert_eq!(
        e.place_order_raw(9, 0, 1_000_000, 100),
        Err(EngineError::InvalidOrderType)
    );
    assert_eq!(
        e.place_order_raw(0, 9, 1_000_000, 100),
        Err(EngineError::InvalidSide)
    );

    // Valid codes work: 0 = limit/buy, 1 = market/sell.
    assert_eq!(e.step_tick_raw(1, 42_000, 1_000_000, 1), Ok(()));
    let id = e.place_order_raw(0, 0, 1_000_000, 41_000).unwrap();
    assert_eq!(id, 0);
}

#[test]
fn out_of_order_timestamps_are_accepted() {
    // Timestamp monotonicity is deliberately not enforced.
    let mut e = Engine::create(config(1, 2, 20, 100_000, 1_000_000)).unwrap();
    e.step_tick(tick(100, 42_000)).unwrap();
    e.step_tick(tick(50, 42_010)).unwrap();
    let s = e.get_snapshot();
    assert_eq!(s.ts_ms, 50);
    assert_eq!(s.mark_price_tick, Some(42_010));
}

#[test]
fn overflowing_accounting_is_refused_without_effect() {
    let mut e = Engine::create(config(1, 2, 20, 100_000, 1_000_000)).unwrap();
    e.place_order(limit(side_t::SIDE_BUY, i64::MAX, i64::MAX)).unwrap();
    // Filling this order cannot be accounted exactly: the tick is refused
    // and nothing changes, not even the mark price.
    assert_eq!(e.step_tick(tick(1, 1)), Err(EngineError::Overflow));
    let s = e.get_snapshot();
    assert_eq!(s.cash_m, 100_000 * M);
    assert_eq!(s.mark_price_tick, None);
    // The order still rests.
    assert_eq!(e.cancel_order(0), Ok(()));
}

#[test]
fn batch_processing_stops_at_the_first_bad_tick() {
    let mut e = Engine::create(config(1, 2, 20, 100_000, 1_000_000)).unwrap();

    // Mismatched lengths: nothing applied.
    assert_eq!(
        e.process_tick_batch(&vec![1, 2], &vec![100], &vec![1, 1], &vec![0, 0]),
        Err(BatchError::LengthMismatch)
    );
    assert_eq!(e.get_snapshot().mark_price_tick, None);

    // The first tick applies; the second has a bad side code.
    assert_eq!(
        e.process_tick_batch(&vec![1, 2], &vec![100, 101], &vec![1, 1], &vec![0, 7]),
        Err(BatchError::Step(1, EngineError::InvalidSide))
    );
    let s = e.get_snapshot();
    assert_eq!(s.mark_price_tick, Some(100));
    assert_eq!(s.ts_ms, 1);

    // A clean batch applies fully.
    assert_eq!(
        e.process_tick_batch(&vec![3, 4], &vec![102, 103], &vec![1, 1], &vec![1, 0]),
        Ok(())
    );
    assert_eq!(e.get_snapshot().mark_price_tick, Some(103));
}

#[test]
fn order_identifiers_increase_and_are_never_reused() {
    let mut e = Engine::create(config(1, 2, 20, 100_000, 1_000_000)).unwrap();
    let a = e.place_order(limit(side_t::SIDE_BUY, 1_000_000, 100)).unwrap();
    let b = e.place_order(limit(side_t::SIDE_BUY, 1_000_000, 101)).unwrap();
    assert_eq!(a, 0);
    assert_eq!(b, 1);
    assert_eq!(e.cancel_order(a), Ok(()));
    let c = e.place_order(limit(side_t::SIDE_SELL, 1_000_000, 200)).unwrap();
    assert_eq!(c, 2);
}
