//! The execution/accounting state machine: owns cash, position, resting
//! orders and PnL, and decides for every tick or order command what fills
//! and what the resulting account state is.
//!
//! Every operation is specified as a pure function of the engine's
//! mathematical model (`EngineModel`). A call either performs exactly that
//! transition, or rejects its input and leaves the state untouched; the
//! contracts say which, and when.

use vstd::prelude::*;

use crate::ledger::{
    abs1, fits_i128, sgn, spec_apply_fill, spec_fill_fits, Ledger, FEE_SCALE, MONEY_PER_MICRO,
    PRICE_SCALE,
};
use crate::types::{order_t, order_type_t, side_t, tick_event_t, BatchError, EngineError};

verus! {

/// Engine configuration, immutable for the engine's lifetime.
///
/// Rates are integer basis points; the starting cash and the tick size are
/// scaled integers with six implied decimal digits.
#[derive(Debug, Copy, Clone, PartialEq, Eq, Structural)]
pub struct Config {
    pub maker_fee_bps: i64,
    pub taker_fee_bps: i64,
    pub spread_bps: i64,
    pub initial_cash_micro: i64,
    pub tick_size_micro: i64,
}

/// A resting limit order: engine-assigned identifier, side, quantity in
/// micro units, and the limit price in ticks.
#[derive(Debug, Copy, Clone, PartialEq, Eq, Structural)]
pub struct RestingOrder {
    pub order_id: u64,
    pub side: side_t,
    pub qty: i64,
    pub price_tick: i64,
}

/// The mathematical model of an engine: the same data with the resting
/// order book as a sequence.
#[verifier::ext_equal]
pub struct EngineModel {
    pub maker_fee_bps: i64,
    pub taker_fee_bps: i64,
    pub spread_bps: i64,
    pub tick_size_micro: i64,
    pub initial_cash_m: i128,
    pub ledger: Ledger,
    pub mark_price_tick: Option<i64>,
    pub last_ts_ms: i64,
    pub resting: Seq<RestingOrder>,
    pub next_order_id: u64,
}

/// A point-in-time projection of the account state, in exact scaled
/// integers. The average entry price is reported as the exact pair of
/// entry cost and position rather than as a rounded quotient.
#[derive(Debug, Copy, Clone, PartialEq, Eq, Structural)]
pub struct Snapshot {
    /// Timestamp of the last processed tick, or zero if none.
    pub ts_ms: i64,
    /// Cash, in money units.
    pub cash_m: i128,
    /// Net position, in micro units (positive = long, negative = short).
    pub position_micro: i128,
    /// Cost of the open position, in money units; zero when flat.
    pub entry_cost_m: i128,
    /// Cumulative realized PnL, in money units.
    pub realized_pnl_m: i128,
    /// `position * (mark - average entry)`, in money units; zero when flat.
    pub unrealized_pnl_m: i128,
    /// Cash plus unrealized PnL, in money units.
    pub equity_m: i128,
    /// The last observed tick price, if any tick has been processed.
    pub mark_price_tick: Option<i64>,
}

/// Whether a configuration is accepted: tick size positive, all rates
/// non-negative.
pub open spec fn spec_config_valid(c: Config) -> bool {
    &&& c.tick_size_micro >= 1
    &&& c.maker_fee_bps >= 0
    &&& c.taker_fee_bps >= 0
    &&& c.spread_bps >= 0
}

/// The state `create` produces: the configured cash, flat position, no
/// resting orders, identifier counter at zero, no mark price.
pub open spec fn spec_create(c: Config) -> EngineModel {
    EngineModel {
        maker_fee_bps: c.maker_fee_bps,
        taker_fee_bps: c.taker_fee_bps,
        spread_bps: c.spread_bps,
        tick_size_micro: c.tick_size_micro,
        initial_cash_m: (c.initial_cash_micro * MONEY_PER_MICRO) as i128,
        ledger: Ledger::spec_fresh(c.initial_cash_micro * MONEY_PER_MICRO),
        mark_price_tick: None,
        last_ts_ms: 0,
        resting: Seq::empty(),
        next_order_id: 0,
    }
}

/// Whether a resting order crosses against an incoming trade price: a
/// resting buy fills when the price has come down to its limit, a resting
/// sell when the price has come up to it.
pub open spec fn spec_crosses(o: RestingOrder, price: int) -> bool {
    match o.side {
        side_t::SIDE_BUY => price <= o.price_tick as int,
        side_t::SIDE_SELL => price >= o.price_tick as int,
    }
}

/// The sub-tick price at which a resting order fills: its own limit price,
/// not the tick price.
pub open spec fn spec_limit_price_s(o: RestingOrder) -> int {
    o.price_tick as int * PRICE_SCALE as int
}

/// Result of evaluating the whole book against one tick: the ledger after
/// all crossing fills, the surviving resting orders, and whether every
/// fill's exact accounting stayed in range.
#[verifier::ext_equal]
pub struct SweepResult {
    pub ledger: Ledger,
    pub resting: Seq<RestingOrder>,
    pub fits: bool,
}

/// Evaluate resting orders against a trade price in ascending-identifier
/// (book) order: each crossing order fills fully at its own limit price at
/// the maker rate and leaves the book; the rest survive in order.
pub open spec fn spec_sweep(
    l: Ledger,
    orders: Seq<RestingOrder>,
    price: int,
    tsm: int,
    maker: int,
) -> SweepResult
    decreases orders.len(),
{
    if orders.len() == 0 {
        SweepResult { ledger: l, resting: Seq::empty(), fits: true }
    } else {
        let o = orders[0];
        let rest = orders.drop_first();
        if spec_crosses(o, price) {
            if spec_fill_fits(l, o.side, o.qty as int, spec_limit_price_s(o), tsm, maker) {
                let l2 = spec_apply_fill(l, o.side, o.qty as int, spec_limit_price_s(o), tsm, maker);
                spec_sweep(l2, rest, price, tsm, maker)
            } else {
                SweepResult { ledger: l, resting: orders, fits: false }
            }
        } else {
            let sub = spec_sweep(l, rest, price, tsm, maker);
            SweepResult { ledger: sub.ledger, resting: seq![o] + sub.resting, fits: sub.fits }
        }
    }
}

/// Unrealized PnL at a mark price: `position * (mark - average entry)`,
/// exactly `sign(position) * (|position| * mark - entry cost)` in money
/// units; zero when flat.
pub open spec fn spec_unrealized(l: Ledger, mark_tick: int, tsm: int) -> int {
    if l.position == 0 {
        0
    } else {
        let pvt = mark_tick * (PRICE_SCALE as int) * tsm;
        let gross = abs1(l.position as int) * pvt * (FEE_SCALE as int);
        sgn(l.position as int) * (gross - l.entry_cost_m)
    }
}

/// Whether the unrealized PnL and the equity at a mark price are
/// representable as `i128`, in the order the executable code computes them.
pub open spec fn spec_unreal_fits(l: Ledger, mark_tick: int, tsm: int) -> bool {
    l.position != 0 ==> {
        let ms = mark_tick * (PRICE_SCALE as int);
        let pvt = ms * tsm;
        let ap = abs1(l.position as int);
        let gross = ap * pvt * (FEE_SCALE as int);
        let diff = gross - l.entry_cost_m;
        &&& fits_i128(ap)
        &&& fits_i128(pvt)
        &&& fits_i128(ap * pvt)
        &&& fits_i128(gross)
        &&& fits_i128(diff)
        &&& fits_i128(sgn(l.position as int) * diff)
        &&& fits_i128(l.cash_m + sgn(l.position as int) * diff)
    }
}

/// Unrealized PnL of a whole engine state: zero while no tick has been
/// seen.
pub open spec fn spec_unrealized_of(m: EngineModel) -> int {
    match m.mark_price_tick {
        Some(p) => spec_unrealized(m.ledger, p as int, m.tick_size_micro as int),
        None => 0,
    }
}

/// Well-formedness of an engine state: a valid configuration; resting
/// orders with positive quantity and strictly ascending identifiers, all
/// below the identifier counter; a mark price whenever the position is
/// open; an entry cost of zero when flat; and a snapshot (unrealized PnL
/// and equity) whose exact value is representable.
pub open spec fn spec_wf(m: EngineModel) -> bool {
    &&& m.tick_size_micro >= 1
    &&& m.maker_fee_bps >= 0
    &&& m.taker_fee_bps >= 0
    &&& m.spread_bps >= 0
    &&& forall|i: int| 0 <= i < m.resting.len() ==> (#[trigger] m.resting[i]).qty > 0
    &&& forall|i: int, j: int|
        #![trigger m.resting[i], m.resting[j]]
        0 <= i < j < m.resting.len() ==> m.resting[i].order_id < m.resting[j].order_id
    &&& forall|i: int| 0 <= i < m.resting.len() ==> (#[trigger] m.resting[i]).order_id
        < m.next_order_id
    &&& (m.ledger.position != 0 ==> m.mark_price_tick is Some)
    &&& (m.ledger.position == 0 ==> m.ledger.entry_cost_m == 0)
    &&& match m.mark_price_tick {
        Some(p) => spec_unreal_fits(m.ledger, p as int, m.tick_size_micro as int),
        None => true,
    }
}

/// The state after a tick: mark price and timestamp taken from the tick,
/// the book swept against the tick price.
pub open spec fn spec_step_tick(m: EngineModel, ts_ms: i64, price: i64) -> EngineModel {
    let sw = spec_sweep(
        m.ledger,
        m.resting,
        price as int,
        m.tick_size_micro as int,
        m.maker_fee_bps as int,
    );
    EngineModel {
        ledger: sw.ledger,
        resting: sw.resting,
        mark_price_tick: Some(price),
        last_ts_ms: ts_ms,
        ..m
    }
}

/// Whether a tick's exact accounting stays in range: every crossing fill
/// fits, and the snapshot at the new mark price fits.
pub open spec fn spec_tick_fits(m: EngineModel, price: i64) -> bool {
    let sw = spec_sweep(
        m.ledger,
        m.resting,
        price as int,
        m.tick_size_micro as int,
        m.maker_fee_bps as int,
    );
    &&& sw.fits
    &&& spec_unreal_fits(sw.ledger, price as int, m.tick_size_micro as int)
}

/// Full tick semantics: the state after the call and what it returns.
pub open spec fn spec_tick_result(m: EngineModel, t: tick_event_t) -> (EngineModel, Result<
    (),
    EngineError,
>) {
    if spec_tick_fits(m, t.price_tick) {
        (spec_step_tick(m, t.ts_ms, t.price_tick), Ok(()))
    } else {
        (m, Err(EngineError::Overflow))
    }
}

/// The synthetic execution price of a market order, in sub-ticks: the mark
/// price plus (buy) or minus (sell) the half-spread `mark * spread / 20000`.
pub open spec fn spec_market_price_s(mark: int, spread: int, side: side_t) -> int {
    mark * ((PRICE_SCALE as int) + side.direction() * spread)
}

/// The state after a limit placement: the order rests with the next
/// identifier; it never fills on placement, even if it already crosses the
/// mark.
pub open spec fn spec_place_limit(m: EngineModel, side: side_t, qty: i64, price: i64) -> EngineModel {
    EngineModel {
        resting: m.resting.push(
            RestingOrder { order_id: m.next_order_id, side, qty, price_tick: price },
        ),
        next_order_id: (m.next_order_id + 1) as u64,
        ..m
    }
}

/// The state after a market fill at the taker rate.
pub open spec fn spec_place_market(m: EngineModel, side: side_t, qty: i64, mark: i64) -> EngineModel {
    let ps = spec_market_price_s(mark as int, m.spread_bps as int, side);
    EngineModel {
        ledger: spec_apply_fill(
            m.ledger,
            side,
            qty as int,
            ps,
            m.tick_size_micro as int,
            m.taker_fee_bps as int,
        ),
        next_order_id: (m.next_order_id + 1) as u64,
        ..m
    }
}

/// Full placement semantics: the state after the call and what it returns.
/// Quantity is validated first; a market order additionally needs an
/// observed mark price, and its exact accounting must stay in range.
pub open spec fn spec_place_result(m: EngineModel, o: order_t) -> (EngineModel, Result<
    u64,
    EngineError,
>) {
    if o.qty <= 0 {
        (m, Err(EngineError::InvalidQuantity))
    } else if m.next_order_id == u64::MAX {
        (m, Err(EngineError::Overflow))
    } else {
        match o.type_ {
            order_type_t::ORDER_TYPE_LIMIT => (
                spec_place_limit(m, o.side, o.qty, o.price_tick),
                Ok(m.next_order_id),
            ),
            order_type_t::ORDER_TYPE_MARKET => match m.mark_price_tick {
                None => (m, Err(EngineError::NoMarketPrice)),
                Some(mark) => {
                    let ps = spec_market_price_s(mark as int, m.spread_bps as int, o.side);
                    let tsm = m.tick_size_micro as int;
                    if !spec_fill_fits(m.ledger, o.side, o.qty as int, ps, tsm, m.taker_fee_bps as int) {
                        (m, Err(EngineError::Overflow))
                    } else {
                        let l2 = spec_apply_fill(
                            m.ledger,
                            o.side,
                            o.qty as int,
                            ps,
                            tsm,
                            m.taker_fee_bps as int,
                        );
                        if !spec_unreal_fits(l2, mark as int, tsm) {
                            (m, Err(EngineError::Overflow))
                        } else {
                            (spec_place_market(m, o.side, o.qty, mark), Ok(m.next_order_id))
                        }
                    }
                },
            },
        }
    }
}

/// Whether some resting order carries this identifier.
pub open spec fn spec_has_order(m: EngineModel, order_id: u64) -> bool {
    exists|i: int| 0 <= i < m.resting.len() && (#[trigger] m.resting[i]).order_id == order_id
}

/// The index of the resting order with this identifier.
pub open spec fn spec_order_index(m: EngineModel, order_id: u64) -> int {
    choose|i: int| 0 <= i < m.resting.len() && (#[trigger] m.resting[i]).order_id == order_id
}

/// Full cancellation semantics: the order leaves the book if it rests;
/// nothing else changes, in particular no cash or PnL effect.
pub open spec fn spec_cancel_result(m: EngineModel, order_id: u64) -> (EngineModel, Result<
    (),
    EngineError,
>) {
    if spec_has_order(m, order_id) {
        (
            EngineModel { resting: m.resting.remove(spec_order_index(m, order_id)), ..m },
            Ok(()),
        )
    } else {
        (m, Err(EngineError::OrderNotFound))
    }
}

/// Full semantics of a tick given by wire codes: an unrecognized side code
/// is rejected before anything else, in particular before the mark-price
/// update.
pub open spec fn spec_tick_raw_result(
    m: EngineModel,
    ts_ms: i64,
    price_tick: i64,
    qty: i64,
    side_code: i64,
) -> (EngineModel, Result<(), EngineError>) {
    match crate::types::spec_side_from_code(side_code) {
        None => (m, Err(EngineError::InvalidSide)),
        Some(side) => spec_tick_result(m, tick_event_t { ts_ms, price_tick, qty, side }),
    }
}

/// Full semantics of a placement given by wire codes: quantity is validated
/// first, then the order-type code, then the side code.
pub open spec fn spec_place_raw_result(
    m: EngineModel,
    type_code: i64,
    side_code: i64,
    qty: i64,
    price_tick: i64,
) -> (EngineModel, Result<u64, EngineError>) {
    if qty <= 0 {
        (m, Err(EngineError::InvalidQuantity))
    } else {
        match crate::types::spec_order_type_from_code(type_code) {
            None => (m, Err(EngineError::InvalidOrderType)),
            Some(type_) => match crate::types::spec_side_from_code(side_code) {
                None => (m, Err(EngineError::InvalidSide)),
                Some(side) => spec_place_result(
                    m,
                    order_t { order_id: 0, type_, side, qty, price_tick },
                ),
            },
        }
    }
}

/// Run a batch of wire-coded ticks from index `k` on, stopping at the first
/// rejected tick: the ticks before it stay applied, the rejected one has no
/// effect.
pub open spec fn spec_run_batch(
    m: EngineModel,
    ts: Seq<i64>,
    ps: Seq<i64>,
    qs: Seq<i64>,
    ss: Seq<u8>,
    k: int,
) -> (EngineModel, Option<(int, EngineError)>)
    decreases ts.len() - k,
{
    if k < 0 || k >= ts.len() {
        (m, None)
    } else {
        let step = spec_tick_raw_result(m, ts[k], ps[k], qs[k], ss[k] as i64);
        match step.1 {
            Err(e) => (m, Some((k, e))),
            Ok(_) => spec_run_batch(step.0, ts, ps, qs, ss, k + 1),
        }
    }
}

/// The snapshot of a state: a pure projection; unrealized PnL and equity
/// are recomputed from position, entry cost and mark, never stored.
pub open spec fn spec_snapshot(m: EngineModel) -> Snapshot {
    Snapshot {
        ts_ms: m.last_ts_ms,
        cash_m: m.ledger.cash_m,
        position_micro: m.ledger.position,
        entry_cost_m: m.ledger.entry_cost_m,
        realized_pnl_m: m.ledger.realized_m,
        unrealized_pnl_m: spec_unrealized_of(m) as i128,
        equity_m: (m.ledger.cash_m + spec_unrealized_of(m)) as i128,
        mark_price_tick: m.mark_price_tick,
    }
}

/// The state `reset` restores: what `create` would have produced from the
/// same configuration.
pub open spec fn spec_reset(m: EngineModel) -> EngineModel {
    EngineModel {
        ledger: Ledger::spec_fresh(m.initial_cash_m as int),
        mark_price_tick: None,
        last_ts_ms: 0,
        resting: Seq::empty(),
        next_order_id: 0,
        ..m
    }
}

/// The single-instrument execution engine. An `Engine` is an exclusively
/// owned resource: it is created from a configuration, mutated only through
/// its methods, and released by dropping it.
pub struct Engine {
    maker_fee_bps: i64,
    taker_fee_bps: i64,
    spread_bps: i64,
    tick_size_micro: i64,
    initial_cash_m: i128,
    ledger: Ledger,
    mark_price_tick: Option<i64>,
    last_ts_ms: i64,
    resting: Vec<RestingOrder>,
    next_order_id: u64,
}

impl View for Engine {
    type V = EngineModel;

    closed spec fn view(&self) -> EngineModel {
        EngineModel {
            maker_fee_bps: self.maker_fee_bps,
            taker_fee_bps: self.taker_fee_bps,
            spread_bps: self.spread_bps,
            tick_size_micro: self.tick_size_micro,
            initial_cash_m: self.initial_cash_m,
            ledger: self.ledger,
            mark_price_tick: self.mark_price_tick,
            last_ts_ms: self.last_ts_ms,
            resting: self.resting@,
            next_order_id: self.next_order_id,
        }
    }
}

impl Engine {
    /// Create an engine, validating the configuration: the tick size must
    /// be positive and every rate non-negative. The fresh state holds the
    /// configured cash, a flat position, no resting orders and an
    /// identifier counter at zero.
    pub fn create(cfg: Config) -> (r: Result<Engine, EngineError>)
        ensures
            r is Ok <==> spec_config_valid(cfg),
            r matches Ok(e) ==> e@ == spec_create(cfg) && spec_wf(e@),
            r matches Err(er) ==> er == EngineError::InvalidConfig,
    {
        if cfg.tick_size_micro < 1 || cfg.maker_fee_bps < 0 || cfg.taker_fee_bps < 0
            || cfg.spread_bps < 0 {
            return Err(EngineError::InvalidConfig);
        }
        proof {
            assert(i128::MIN <= cfg.initial_cash_micro as int * 200_000_000_000_000
                <= i128::MAX) by (nonlinear_arith)
                requires
                    -0x8000_0000_0000_0000 <= cfg.initial_cash_micro as int
                        <= 0x7fff_ffff_ffff_ffff,
            ;
        }
        let cash_m: i128 = (cfg.initial_cash_micro as i128) * MONEY_PER_MICRO;
        let e = Engine {
            maker_fee_bps: cfg.maker_fee_bps,
            taker_fee_bps: cfg.taker_fee_bps,
            spread_bps: cfg.spread_bps,
            tick_size_micro: cfg.tick_size_micro,
            initial_cash_m: cash_m,
            ledger: Ledger::fresh(cash_m),
            mark_price_tick: None,
            last_ts_ms: 0,
            resting: Vec::new(),
            next_order_id: 0,
        };
        proof {
            assert(e@ =~= spec_create(cfg));
        }
        Ok(e)
    }

    /// Restore the state `create` would have produced from the same
    /// configuration: resting orders and history are discarded, the
    /// configuration is retained.
    pub fn reset(&mut self)
        ensures
            final(self)@ == spec_reset(old(self)@),
            spec_wf(old(self)@) ==> spec_wf(final(self)@),
    {
        self.ledger = Ledger::fresh(self.initial_cash_m);
        self.mark_price_tick = None;
        self.last_ts_ms = 0;
        self.resting = Vec::new();
        self.next_order_id = 0;
        proof {
            assert(self@ =~= spec_reset(old(self)@));
        }
    }

    /// Process one market tick: update the mark price and the timestamp,
    /// and fill every resting order the trade price crosses, in book order,
    /// each at its own limit price at the maker rate. Rejected ticks leave
    /// the state untouched, the mark price included.
    pub fn step_tick(&mut self, tick: tick_event_t) -> (r: Result<(), EngineError>)
        requires
            spec_wf(old(self)@),
        ensures
            final(self)@ == spec_tick_result(old(self)@, tick).0,
            r == spec_tick_result(old(self)@, tick).1,
            spec_wf(final(self)@),
    {
        let ghost m0 = self@;
        let price = tick.price_tick;
        let tsm = self.tick_size_micro;
        let maker = self.maker_fee_bps;
        let mut led = self.ledger;
        let mut keep: Vec<RestingOrder> = Vec::new();
        let n = self.resting.len();
        let ghost orders = self.resting@;
        proof {
            assert(orders.skip(0) =~= orders);
            assert(keep@ + spec_sweep(led, orders, price as int, tsm as int, maker as int).resting
                =~= spec_sweep(led, orders, price as int, tsm as int, maker as int).resting);
        }
        let mut i: usize = 0;
        while i < n
            invariant
                spec_wf(m0),
                m0 == self@,
                n == self.resting.len(),
                orders == self.resting@,
                tsm == m0.tick_size_micro,
                maker == m0.maker_fee_bps,
                price == tick.price_tick,
                0 <= i <= n,
                ({
                    let rem = spec_sweep(led, orders.skip(i as int), price as int, tsm as int, maker as int);
                    let full = spec_sweep(m0.ledger, orders, price as int, tsm as int, maker as int);
                    &&& full.fits == rem.fits
                    &&& (rem.fits ==> full.ledger == rem.ledger && full.resting == keep@
                        + rem.resting)
                }),
            decreases n - i,
        {
            let o = self.resting[i];
            proof {
                assert(orders.skip(i as int)[0] == orders[i as int]);
                assert(orders.skip(i as int).drop_first() =~= orders.skip(i as int + 1));
            }
            let crosses = match o.side {
                side_t::SIDE_BUY => price <= o.price_tick,
                side_t::SIDE_SELL => price >= o.price_tick,
            };
            if crosses {
                proof {
                    assert(i128::MIN <= o.price_tick as int * 20000 <= i128::MAX)
                        by (nonlinear_arith)
                        requires
                            -0x8000_0000_0000_0000 <= o.price_tick as int
                                <= 0x7fff_ffff_ffff_ffff,
                    ;
                }
                let ps: i128 = (o.price_tick as i128) * (PRICE_SCALE as i128);
                match led.apply_fill(o.side, o.qty, ps, tsm, maker) {
                    Ok(l2) => {
                        led = l2;
                    },
                    Err(_) => {
                        return Err(EngineError::Overflow);
                    },
                }
            } else {
                keep.push(o);
                proof {
                    let rem2 = spec_sweep(
                        led,
                        orders.skip(i as int + 1),
                        price as int,
                        tsm as int,
                        maker as int,
                    );
                    assert(keep@ =~= keep@.drop_last() + seq![o]);
                    assert(keep@.drop_last() + (seq![o] + rem2.resting) =~= keep@ + rem2.resting);
                }
            }
            i += 1;
        }
        proof {
            assert(orders.skip(n as int) =~= Seq::<RestingOrder>::empty());
        }
        match check_unreal(&led, price, tsm) {
            Some(_) => {},
            None => {
                return Err(EngineError::Overflow);
            },
        }
        self.ledger = led;
        self.resting = keep;
        self.mark_price_tick = Some(price);
        self.last_ts_ms = tick.ts_ms;
        proof {
            let full = spec_sweep(m0.ledger, orders, price as int, tsm as int, maker as int);
            assert(full.resting =~= keep@ + spec_sweep(
                led,
                orders.skip(n as int),
                price as int,
                tsm as int,
                maker as int,
            ).resting);
            assert(full.resting =~= keep@);
            assert(self@ =~= spec_step_tick(m0, tick.ts_ms, price));
            lemma_sweep_props(m0.ledger, m0.resting, price as int, tsm as int, maker as int);
            lemma_sweep_preserves_flat_entry(
                m0.ledger,
                m0.resting,
                price as int,
                tsm as int,
                maker as int,
            );
            assert forall|k: int| 0 <= k < self@.resting.len() implies (#[trigger] self@.resting[k]).qty
                > 0 && self@.resting[k].order_id < self@.next_order_id by {
                assert(m0.resting.contains(self@.resting[k]));
                let idx = choose|idx: int|
                    0 <= idx < m0.resting.len() && m0.resting[idx] == self@.resting[k];
                assert(m0.resting[idx].qty > 0);
            };
        }
        Ok(())
    }

    /// File an order. A limit order rests with the next identifier and
    /// never fills on placement; a market order fills immediately at the
    /// synthetic price derived from the mark and the configured spread, at
    /// the taker rate. Returns the assigned identifier.
    pub fn place_order(&mut self, order: order_t) -> (r: Result<u64, EngineError>)
        requires
            spec_wf(old(self)@),
        ensures
            final(self)@ == spec_place_result(old(self)@, order).0,
            r == spec_place_result(old(self)@, order).1,
            spec_wf(final(self)@),
    {
        let ghost m0 = self@;
        if order.qty <= 0 {
            return Err(EngineError::InvalidQuantity);
        }
        if self.next_order_id == u64::MAX {
            return Err(EngineError::Overflow);
        }
        match order.type_ {
            order_type_t::ORDER_TYPE_LIMIT => {
                let id = self.next_order_id;
                self.resting.push(
                    RestingOrder {
                        order_id: id,
                        side: order.side,
                        qty: order.qty,
                        price_tick: order.price_tick,
                    },
                );
                self.next_order_id = id + 1;
                proof {
                    assert(self@ =~= spec_place_limit(m0, order.side, order.qty, order.price_tick));
                    assert forall|a: int, b: int|
                        0 <= a < b < self@.resting.len() implies (#[trigger] self@.resting[a]).order_id
                        < (#[trigger] self@.resting[b]).order_id by {
                        if b < m0.resting.len() {
                            assert(m0.resting[a].order_id < m0.resting[b].order_id);
                        }
                    };
                }
                Ok(id)
            },
            order_type_t::ORDER_TYPE_MARKET => {
                match self.mark_price_tick {
                    None => Err(EngineError::NoMarketPrice),
                    Some(mark) => {
                        let factor: i128 = if order.side == side_t::SIDE_BUY {
                            (PRICE_SCALE as i128) + (self.spread_bps as i128)
                        } else {
                            (PRICE_SCALE as i128) - (self.spread_bps as i128)
                        };
                        proof {
                            assert(i128::MIN <= mark as int * factor as int <= i128::MAX)
                                by (nonlinear_arith)
                                requires
                                    -0x8000_0000_0000_0000 <= mark as int
                                        <= 0x7fff_ffff_ffff_ffff,
                                    -0x8000_0000_0000_4e20 <= factor as int
                                        <= 0x7fff_ffff_ffff_ffff + 0x4e20,
                            ;
                        }
                        let ps: i128 = (mark as i128) * factor;
                        match self.ledger.apply_fill(
                            order.side,
                            order.qty,
                            ps,
                            self.tick_size_micro,
                            self.taker_fee_bps,
                        ) {
                            Err(_) => Err(EngineError::Overflow),
                            Ok(l2) => {
                                match check_unreal(&l2, mark, self.tick_size_micro) {
                                    None => Err(EngineError::Overflow),
                                    Some(_) => {
                                        let id = self.next_order_id;
                                        self.ledger = l2;
                                        self.next_order_id = id + 1;
                                        proof {
                                            if order.side == side_t::SIDE_BUY {
                                                assert(order.side.direction() == 1);
                                            } else {
                                                assert(order.side == side_t::SIDE_SELL);
                                                assert(order.side.direction() == -1);
                                            }
                                            assert(ps as int == spec_market_price_s(
                                                mark as int,
                                                m0.spread_bps as int,
                                                order.side,
                                            ));
                                            crate::ledger::lemma_fill_preserves_flat_entry(
                                                m0.ledger,
                                                order.side,
                                                order.qty as int,
                                                ps as int,
                                                m0.tick_size_micro as int,
                                                m0.taker_fee_bps as int,
                                            );
                                            assert(self@ =~= spec_place_market(
                                                m0,
                                                order.side,
                                                order.qty,
                                                mark,
                                            ));
                                        }
                                        Ok(id)
                                    },
                                }
                            },
                        }
                    },
                }
            },
        }
    }

    /// Cancel a resting order by identifier: it leaves the book, with no
    /// cash or PnL effect; an identifier that is not resting is reported as
    /// not found.
    pub fn cancel_order(&mut self, order_id: u64) -> (r: Result<(), EngineError>)
        requires
            spec_wf(old(self)@),
        ensures
            final(self)@ == spec_cancel_result(old(self)@, order_id).0,
            r == spec_cancel_result(old(self)@, order_id).1,
            spec_wf(final(self)@),
    {
        let ghost m0 = self@;
        let n = self.resting.len();
        let mut i: usize = 0;
        while i < n
            invariant
                spec_wf(m0),
                m0 == self@,
                m0 == old(self)@,
                n == self.resting.len(),
                0 <= i <= n,
                forall|k: int| 0 <= k < i ==> (#[trigger] m0.resting[k]).order_id != order_id,
            decreases n - i,
        {
            if self.resting[i].order_id == order_id {
                proof {
                    assert(m0.resting[i as int].order_id == order_id);
                }
                self.resting.remove(i);
                proof {
                    assert(spec_has_order(m0, order_id));
                    let j = spec_order_index(m0, order_id);
                    assert(0 <= j < m0.resting.len() && m0.resting[j].order_id == order_id);
                    if j < i as int {
                        assert(m0.resting[j].order_id < m0.resting[i as int].order_id);
                        assert(false);
                    }
                    if j > i as int {
                        assert(m0.resting[i as int].order_id < m0.resting[j].order_id);
                        assert(false);
                    }
                    assert(self@ =~= spec_cancel_result(m0, order_id).0);
                    m0.resting.remove_ensures(i as int);
                    assert forall|a: int, b: int|
                        0 <= a < b < self@.resting.len() implies (#[trigger] self@.resting[a]).order_id
                        < (#[trigger] self@.resting[b]).order_id by {
                        if b < i as int {
                            assert(m0.resting[a].order_id < m0.resting[b].order_id);
                        } else if a < i as int {
                            assert(m0.resting[a].order_id < m0.resting[b + 1].order_id);
                        } else {
                            assert(m0.resting[a + 1].order_id < m0.resting[b + 1].order_id);
                        }
                    };
                    assert forall|k: int| 0 <= k < self@.resting.len() implies (#[trigger] self@.resting[k]).qty
                        > 0 && self@.resting[k].order_id < self@.next_order_id by {
                        if k < i as int {
                            assert(m0.resting[k].qty > 0);
                        } else {
                            assert(m0.resting[k + 1].qty > 0);
                        }
                    };
                }
                return Ok(());
            }
            i += 1;
        }
        proof {
            if spec_has_order(m0, order_id) {
                let j = spec_order_index(m0, order_id);
                assert(0 <= j < m0.resting.len() && m0.resting[j].order_id == order_id);
                assert(false);
            }
        }
        Err(EngineError::OrderNotFound)
    }

    /// Process one tick given by wire codes (`0` = buy, `1` = sell): an
    /// unrecognized side code is rejected before the mark-price update.
    pub fn step_tick_raw(&mut self, ts_ms: i64, price_tick: i64, qty: i64, side_code: i64) -> (r:
        Result<(), EngineError>)
        requires
            spec_wf(old(self)@),
        ensures
            final(self)@ == spec_tick_raw_result(old(self)@, ts_ms, price_tick, qty, side_code).0,
            r == spec_tick_raw_result(old(self)@, ts_ms, price_tick, qty, side_code).1,
            spec_wf(final(self)@),
    {
        match side_t::from_code(side_code) {
            None => Err(EngineError::InvalidSide),
            Some(side) => self.step_tick(tick_event_t { ts_ms, price_tick, qty, side }),
        }
    }

    /// File an order given by wire codes (type: `0` = limit, `1` = market;
    /// side: `0` = buy, `1` = sell). Quantity is validated first, then the
    /// order-type code, then the side code.
    pub fn place_order_raw(
        &mut self,
        type_code: i64,
        side_code: i64,
        qty: i64,
        price_tick: i64,
    ) -> (r: Result<u64, EngineError>)
        requires
            spec_wf(old(self)@),
        ensures
            final(self)@ == spec_place_raw_result(
                old(self)@,
                type_code,
                side_code,
                qty,
                price_tick,
            ).0,
            r == spec_place_raw_result(old(self)@, type_code, side_code, qty, price_tick).1,
            spec_wf(final(self)@),
    {
        if qty <= 0 {
            return Err(EngineError::InvalidQuantity);
        }
        match order_type_t::from_code(type_code) {
            None => Err(EngineError::InvalidOrderType),
            Some(type_) => match side_t::from_code(side_code) {
                None => Err(EngineError::InvalidSide),
                Some(side) => self.place_order(
                    order_t { order_id: 0, type_, side, qty, price_tick },
                ),
            },
        }
    }

    /// Process a batch of wire-coded ticks, stopping at the first rejected
    /// one: the ticks before it stay applied, the rejected one has no
    /// effect. The four vectors must have one entry per tick.
    pub fn process_tick_batch(
        &mut self,
        timestamps: &Vec<i64>,
        price_ticks: &Vec<i64>,
        qtys: &Vec<i64>,
        sides: &Vec<u8>,
    ) -> (r: Result<(), BatchError>)
        requires
            spec_wf(old(self)@),
        ensures
            spec_wf(final(self)@),
            (timestamps@.len() != price_ticks@.len() || timestamps@.len() != qtys@.len()
                || timestamps@.len() != sides@.len()) ==> final(self)@ == old(self)@ && r == Err::<
                (),
                BatchError,
            >(BatchError::LengthMismatch),
            (timestamps@.len() == price_ticks@.len() && timestamps@.len() == qtys@.len()
                && timestamps@.len() == sides@.len()) ==> {
                let run = spec_run_batch(old(self)@, timestamps@, price_ticks@, qtys@, sides@, 0);
                &&& final(self)@ == run.0
                &&& r == match run.1 {
                    None => Ok::<(), BatchError>(()),
                    Some(p) => Err(BatchError::Step(p.0 as usize, p.1)),
                }
            },
    {
        let ghost m0 = self@;
        let n = timestamps.len();
        if price_ticks.len() != n || qtys.len() != n || sides.len() != n {
            return Err(BatchError::LengthMismatch);
        }
        let mut k: usize = 0;
        while k < n
            invariant
                spec_wf(self@),
                m0 == old(self)@,
                n == timestamps@.len(),
                n == price_ticks@.len(),
                n == qtys@.len(),
                n == sides@.len(),
                0 <= k <= n,
                spec_run_batch(m0, timestamps@, price_ticks@, qtys@, sides@, 0) == spec_run_batch(
                    self@,
                    timestamps@,
                    price_ticks@,
                    qtys@,
                    sides@,
                    k as int,
                ),
            decreases n - k,
        {
            match self.step_tick_raw(
                timestamps[k],
                price_ticks[k],
                qtys[k],
                sides[k] as i64,
            ) {
                Ok(_) => {},
                Err(e) => {
                    return Err(BatchError::Step(k, e));
                },
            }
            k += 1;
        }
        Ok(())
    }

    /// Take a point-in-time snapshot: a pure read that always succeeds.
    /// Unrealized PnL and equity are recomputed from position, entry cost
    /// and mark price; they are never stored.
    pub fn get_snapshot(&self) -> (r: Snapshot)
        requires
            spec_wf(self@),
        ensures
            r == spec_snapshot(self@),
    {
        match self.mark_price_tick {
            None => Snapshot {
                ts_ms: self.last_ts_ms,
                cash_m: self.ledger.cash_m,
                position_micro: self.ledger.position,
                entry_cost_m: self.ledger.entry_cost_m,
                realized_pnl_m: self.ledger.realized_m,
                unrealized_pnl_m: 0,
                equity_m: self.ledger.cash_m,
                mark_price_tick: None,
            },
            Some(p) => {
                match check_unreal(&self.ledger, p, self.tick_size_micro) {
                    Some(ue) => Snapshot {
                        ts_ms: self.last_ts_ms,
                        cash_m: self.ledger.cash_m,
                        position_micro: self.ledger.position,
                        entry_cost_m: self.ledger.entry_cost_m,
                        realized_pnl_m: self.ledger.realized_m,
                        unrealized_pnl_m: ue.0,
                        equity_m: ue.1,
                        mark_price_tick: Some(p),
                    },
                    None => unreached(),
                }
            },
        }
    }
}

/// Compute the exact unrealized PnL and the equity at a mark price, or
/// report that their exact values would leave the 128-bit range.
fn check_unreal(l: &Ledger, mark_tick: i64, tsm: i64) -> (r: Option<(i128, i128)>)
    requires
        tsm >= 1,
    ensures
        r is Some <==> spec_unreal_fits(*l, mark_tick as int, tsm as int),
        r matches Some(ue) ==> ue.0 == spec_unrealized(*l, mark_tick as int, tsm as int)
            && ue.1 == l.cash_m + spec_unrealized(*l, mark_tick as int, tsm as int),
{
    if l.position == 0 {
        return Some((0, l.cash_m));
    }
    if l.position == i128::MIN {
        return None;
    }
    let long = l.position > 0;
    let ap: i128 = if long {
        l.position
    } else {
        -l.position
    };
    proof {
        assert(i128::MIN <= mark_tick as int * 20000 <= i128::MAX) by (nonlinear_arith)
            requires
                -0x8000_0000_0000_0000 <= mark_tick as int <= 0x7fff_ffff_ffff_ffff,
        ;
    }
    let ms: i128 = (mark_tick as i128) * (PRICE_SCALE as i128);
    let pvt = match ms.checked_mul(tsm as i128) {
        Some(v) => v,
        None => {
            return None;
        },
    };
    let t = match ap.checked_mul(pvt) {
        Some(v) => v,
        None => {
            return None;
        },
    };
    let gross = match t.checked_mul(FEE_SCALE as i128) {
        Some(v) => v,
        None => {
            return None;
        },
    };
    let diff = match gross.checked_sub(l.entry_cost_m) {
        Some(v) => v,
        None => {
            return None;
        },
    };
    if !long && diff == i128::MIN {
        return None;
    }
    let unreal = if long {
        diff
    } else {
        -diff
    };
    let equity = match l.cash_m.checked_add(unreal) {
        Some(v) => v,
        None => {
            return None;
        },
    };
    Some((unreal, equity))
}

/// A sweep of orders with positive quantities keeps the bookkeeping rule
/// that a flat position has zero entry cost.
pub proof fn lemma_sweep_preserves_flat_entry(
    l: Ledger,
    orders: Seq<RestingOrder>,
    price: int,
    tsm: int,
    maker: int,
)
    requires
        forall|i: int| 0 <= i < orders.len() ==> (#[trigger] orders[i]).qty > 0,
        l.position == 0 ==> l.entry_cost_m == 0,
    ensures
        ({
            let sw = spec_sweep(l, orders, price, tsm, maker);
            sw.ledger.position == 0 ==> sw.ledger.entry_cost_m == 0
        }),
    decreases orders.len(),
{
    if orders.len() > 0 {
        let o = orders[0];
        let rest = orders.drop_first();
        assert forall|i: int| 0 <= i < rest.len() implies (#[trigger] rest[i]).qty > 0 by {
            assert(rest[i] == orders[i + 1]);
        };
        if spec_crosses(o, price) {
            if spec_fill_fits(l, o.side, o.qty as int, spec_limit_price_s(o), tsm, maker) {
                let l2 = spec_apply_fill(l, o.side, o.qty as int, spec_limit_price_s(o), tsm, maker);
                crate::ledger::lemma_fill_preserves_flat_entry(
                    l,
                    o.side,
                    o.qty as int,
                    spec_limit_price_s(o),
                    tsm,
                    maker,
                );
                lemma_sweep_preserves_flat_entry(l2, rest, price, tsm, maker);
            }
        } else {
            lemma_sweep_preserves_flat_entry(l, rest, price, tsm, maker);
        }
    }
}

/// The survivors of a sweep all come from the book it swept, in the same
/// (ascending-identifier) order.
pub proof fn lemma_sweep_props(
    l: Ledger,
    orders: Seq<RestingOrder>,
    price: int,
    tsm: int,
    maker: int,
)
    requires
        forall|i: int, j: int|
            #![trigger orders[i], orders[j]]
            0 <= i < j < orders.len() ==> orders[i].order_id < orders[j].order_id,
    ensures
        ({
            let sw = spec_sweep(l, orders, price, tsm, maker);
            &&& forall|k: int|
                0 <= k < sw.resting.len() ==> orders.contains(#[trigger] sw.resting[k])
            &&& forall|k: int, k2: int|
                #![trigger sw.resting[k], sw.resting[k2]]
                0 <= k < k2 < sw.resting.len() ==> sw.resting[k].order_id
                    < sw.resting[k2].order_id
        }),
    decreases orders.len(),
{
    let sw = spec_sweep(l, orders, price, tsm, maker);
    if orders.len() == 0 {
        assert(sw.resting.len() == 0);
    } else {
        let o = orders[0];
        let rest = orders.drop_first();
        assert forall|i: int, j: int|
            #![trigger rest[i], rest[j]]
            0 <= i < j < rest.len() implies rest[i].order_id < rest[j].order_id by {
            assert(rest[i] == orders[i + 1]);
            assert(rest[j] == orders[j + 1]);
        };
        if spec_crosses(o, price) {
            if spec_fill_fits(l, o.side, o.qty as int, spec_limit_price_s(o), tsm, maker) {
                let l2 = spec_apply_fill(l, o.side, o.qty as int, spec_limit_price_s(o), tsm, maker);
                lemma_sweep_props(l2, rest, price, tsm, maker);
                let sub = spec_sweep(l2, rest, price, tsm, maker);
                assert(sw == sub);
                assert forall|k: int| 0 <= k < sw.resting.len() implies orders.contains(
                    #[trigger] sw.resting[k],
                ) by {
                    assert(rest.contains(sw.resting[k]));
                    let idx = choose|idx: int|
                        0 <= idx < rest.len() && rest[idx] == sw.resting[k];
                    assert(orders[idx + 1] == sw.resting[k]);
                };
            } else {
                assert(sw.resting == orders);
                assert forall|k: int| 0 <= k < sw.resting.len() implies orders.contains(
                    #[trigger] sw.resting[k],
                ) by {
                    assert(orders[k] == sw.resting[k]);
                };
            }
        } else {
            lemma_sweep_props(l, rest, price, tsm, maker);
            let sub = spec_sweep(l, rest, price, tsm, maker);
            assert(sw.resting == seq![o] + sub.resting);
            assert forall|k: int| 0 <= k < sw.resting.len() implies orders.contains(
                #[trigger] sw.resting[k],
            ) by {
                if k == 0 {
                    assert(sw.resting[0] == o);
                    assert(orders[0] == o);
                } else {
                    assert(sw.resting[k] == sub.resting[k - 1]);
                    assert(rest.contains(sub.resting[k - 1]));
                    let idx = choose|idx: int|
                        0 <= idx < rest.len() && rest[idx] == sub.resting[k - 1];
                    assert(orders[idx + 1] == sw.resting[k]);
                }
            };
            assert forall|k: int, k2: int|
                #![trigger sw.resting[k], sw.resting[k2]]
                0 <= k < k2 < sw.resting.len() implies sw.resting[k].order_id
                < sw.resting[k2].order_id by {
                if k == 0 {
                    assert(sw.resting[k2] == sub.resting[k2 - 1]);
                    assert(rest.contains(sub.resting[k2 - 1]));
                    let idx = choose|idx: int|
                        0 <= idx < rest.len() && rest[idx] == sub.resting[k2 - 1];
                    assert(orders[idx + 1] == sw.resting[k2]);
                    assert(orders[0].order_id < orders[idx + 1].order_id);
                } else {
                    assert(sw.resting[k] == sub.resting[k - 1]);
                    assert(sw.resting[k2] == sub.resting[k2 - 1]);
                }
            };
        }
    }
}

} // verus!
