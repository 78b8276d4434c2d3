//! Laws the engine obeys across calls, stated over the engine model and
//! proved once for every state and input that meets their hypotheses.

use vstd::prelude::*;

use crate::engine::{
    lemma_sweep_props, spec_cancel_result, spec_config_valid, spec_create, spec_crosses,
    spec_has_order, spec_limit_price_s, spec_order_index, spec_place_limit, spec_snapshot,
    spec_step_tick, spec_sweep, spec_tick_fits, spec_tick_result, spec_unreal_fits, spec_wf,
    EngineModel, RestingOrder, SweepResult,
};
use crate::ledger::{spec_apply_fill, spec_fill_fits, Ledger, FEE_SCALE, MONEY_PER_MICRO,
    PRICE_SCALE};
use crate::types::{side_t, tick_event_t, EngineError};

verus! {

/// A fresh engine's snapshot: cash equals the configured starting cash, the
/// position is flat, realized and unrealized PnL are zero, and the equity
/// equals the cash.
pub proof fn lemma_create_snapshot(cfg: crate::engine::Config)
    requires
        spec_config_valid(cfg),
    ensures
        ({
            let snap = spec_snapshot(spec_create(cfg));
            &&& snap.cash_m == cfg.initial_cash_micro as int * (MONEY_PER_MICRO as int)
            &&& snap.position_micro == 0
            &&& snap.realized_pnl_m == 0
            &&& snap.unrealized_pnl_m == 0
            &&& snap.equity_m == snap.cash_m
            &&& snap.ts_ms == 0
        }),
        spec_wf(spec_create(cfg)),
{
    assert(i128::MIN <= cfg.initial_cash_micro as int * 200_000_000_000_000 <= i128::MAX)
        by (nonlinear_arith)
        requires
            -0x8000_0000_0000_0000 <= cfg.initial_cash_micro as int <= 0x7fff_ffff_ffff_ffff,
    ;
}

/// Round trip of a resting buy: placing a limit buy on an otherwise empty
/// book from a flat position, then a tick at or below its limit, fills the
/// whole quantity at the limit price (not the tick price): cash drops by
/// exactly quantity times price plus the maker fee, the position becomes
/// the quantity, and the average entry price is the limit price.
pub proof fn lemma_limit_buy_round_trip(
    m: EngineModel,
    qty: i64,
    limit_price: i64,
    t: tick_event_t,
)
    requires
        spec_wf(m),
        m.resting.len() == 0,
        m.ledger.position == 0,
        qty > 0,
        m.next_order_id < u64::MAX,
        t.price_tick <= limit_price,
        spec_tick_fits(spec_place_limit(m, side_t::SIDE_BUY, qty, limit_price), t.price_tick),
    ensures
        ({
            let m1 = spec_place_limit(m, side_t::SIDE_BUY, qty, limit_price);
            let m2 = spec_step_tick(m1, t.ts_ms, t.price_tick);
            let pvt = (limit_price as int * PRICE_SCALE as int) * m.tick_size_micro as int;
            let notional = qty as int * pvt * (FEE_SCALE as int);
            let fee = qty as int * pvt * m.maker_fee_bps as int;
            &&& spec_tick_result(m1, t) == (m2, Ok::<(), EngineError>(()))
            &&& m2.resting.len() == 0
            &&& m2.ledger.position == qty as int
            &&& m2.ledger.cash_m == m.ledger.cash_m - notional - fee
            &&& m2.ledger.entry_cost_m == notional
            &&& m2.ledger.realized_m == m.ledger.realized_m
            &&& m2.mark_price_tick == Some(t.price_tick)
        }),
{
    let m1 = spec_place_limit(m, side_t::SIDE_BUY, qty, limit_price);
    let o = RestingOrder {
        order_id: m.next_order_id,
        side: side_t::SIDE_BUY,
        qty,
        price_tick: limit_price,
    };
    assert(m1.resting =~= seq![o]);
    let tsm = m.tick_size_micro as int;
    let maker = m.maker_fee_bps as int;
    let price = t.price_tick as int;
    let sw = spec_sweep(m.ledger, m1.resting, price, tsm, maker);
    assert(m1.resting[0] == o);
    assert(spec_crosses(o, price));
    assert(m1.resting.drop_first() =~= Seq::<RestingOrder>::empty());
    assert(spec_fill_fits(m.ledger, side_t::SIDE_BUY, qty as int, spec_limit_price_s(o), tsm, maker));
    let l2 = spec_apply_fill(m.ledger, side_t::SIDE_BUY, qty as int, spec_limit_price_s(o), tsm, maker);
    let empty = Seq::<RestingOrder>::empty();
    assert(spec_sweep(l2, empty, price, tsm, maker) == (SweepResult {
        ledger: l2,
        resting: empty,
        fits: true,
    }));
    assert(sw == spec_sweep(l2, m1.resting.drop_first(), price, tsm, maker));
    assert(sw == SweepResult { ledger: l2, resting: Seq::<RestingOrder>::empty(), fits: true });
}

/// One non-crossing tick sweeps nothing: the ledger and the whole resting
/// set survive unchanged.
pub proof fn lemma_sweep_no_cross(
    l: Ledger,
    orders: Seq<RestingOrder>,
    price: int,
    tsm: int,
    maker: int,
)
    requires
        forall|i: int| 0 <= i < orders.len() ==> !spec_crosses(#[trigger] orders[i], price),
    ensures
        spec_sweep(l, orders, price, tsm, maker) == (SweepResult {
            ledger: l,
            resting: orders,
            fits: true,
        }),
    decreases orders.len(),
{
    if orders.len() == 0 {
        assert(spec_sweep(l, orders, price, tsm, maker).resting =~= orders);
    } else {
        let o = orders[0];
        let rest = orders.drop_first();
        assert forall|i: int| 0 <= i < rest.len() implies !spec_crosses(
            #[trigger] rest[i],
            price,
        ) by {
            assert(rest[i] == orders[i + 1]);
        };
        lemma_sweep_no_cross(l, rest, price, tsm, maker);
        assert(seq![o] + rest =~= orders);
    }
}

/// The state after a sequence of ticks, each applied with the full tick
/// semantics (a rejected tick leaves the state unchanged).
pub open spec fn spec_run_ticks(m: EngineModel, ticks: Seq<tick_event_t>) -> EngineModel
    decreases ticks.len(),
{
    if ticks.len() == 0 {
        m
    } else {
        spec_run_ticks(spec_tick_result(m, ticks[0]).0, ticks.drop_first())
    }
}

/// A sequence of ticks that never cross a resting order changes only the
/// mark price and the timestamp: cash, realized PnL, position, entry cost
/// and the resting set all survive unchanged, and every tick is accepted.
pub proof fn lemma_non_crossing_ticks(m: EngineModel, ticks: Seq<tick_event_t>)
    requires
        forall|i: int, j: int|
            #![trigger ticks[i], m.resting[j]]
            0 <= i < ticks.len() && 0 <= j < m.resting.len() ==> !spec_crosses(
                m.resting[j],
                ticks[i].price_tick as int,
            ),
        forall|i: int| 0 <= i < ticks.len() ==> spec_unreal_fits(
            m.ledger,
            (#[trigger] ticks[i]).price_tick as int,
            m.tick_size_micro as int,
        ),
    ensures
        ({
            let m2 = spec_run_ticks(m, ticks);
            &&& m2.ledger == m.ledger
            &&& m2.resting == m.resting
            &&& m2.next_order_id == m.next_order_id
            &&& m2.maker_fee_bps == m.maker_fee_bps
            &&& m2.taker_fee_bps == m.taker_fee_bps
            &&& m2.spread_bps == m.spread_bps
            &&& m2.tick_size_micro == m.tick_size_micro
            &&& m2.initial_cash_m == m.initial_cash_m
            &&& ticks.len() > 0 ==> m2.mark_price_tick == Some(
                ticks[ticks.len() - 1].price_tick,
            ) && m2.last_ts_ms == ticks[ticks.len() - 1].ts_ms
            &&& ticks.len() == 0 ==> m2 == m
        }),
    decreases ticks.len(),
{
    if ticks.len() > 0 {
        let t0 = ticks[0];
        lemma_sweep_no_cross(
            m.ledger,
            m.resting,
            t0.price_tick as int,
            m.tick_size_micro as int,
            m.maker_fee_bps as int,
        );
        assert(spec_tick_fits(m, t0.price_tick));
        let m1 = spec_tick_result(m, t0).0;
        assert(m1 == spec_step_tick(m, t0.ts_ms, t0.price_tick));
        let rest = ticks.drop_first();
        assert forall|i: int, j: int|
            #![trigger rest[i], m1.resting[j]]
            0 <= i < rest.len() && 0 <= j < m1.resting.len() implies !spec_crosses(
            m1.resting[j],
            rest[i].price_tick as int,
        ) by {
            assert(rest[i] == ticks[i + 1]);
            assert(m1.resting[j] == m.resting[j]);
        };
        assert forall|i: int| 0 <= i < rest.len() implies spec_unreal_fits(
            m1.ledger,
            (#[trigger] rest[i]).price_tick as int,
            m1.tick_size_micro as int,
        ) by {
            assert(rest[i] == ticks[i + 1]);
        };
        lemma_non_crossing_ticks(m1, rest);
    }
}

/// Cancellation never touches money: the ledger, the mark price and the
/// timestamp survive, and the cancelled identifier rests nowhere
/// afterwards.
pub proof fn lemma_cancel_removes(m: EngineModel, order_id: u64)
    requires
        spec_wf(m),
    ensures
        ({
            let mc = spec_cancel_result(m, order_id).0;
            &&& mc.ledger == m.ledger
            &&& mc.mark_price_tick == m.mark_price_tick
            &&& mc.last_ts_ms == m.last_ts_ms
            &&& forall|j: int| 0 <= j < mc.resting.len() ==> (#[trigger] mc.resting[j]).order_id
                != order_id
        }),
{
    let mc = spec_cancel_result(m, order_id).0;
    if spec_has_order(m, order_id) {
        let idx = spec_order_index(m, order_id);
        assert(0 <= idx < m.resting.len() && m.resting[idx].order_id == order_id);
        m.resting.remove_ensures(idx);
        assert forall|j: int| 0 <= j < mc.resting.len() implies (#[trigger] mc.resting[j]).order_id
            != order_id by {
            if j < idx {
                assert(mc.resting[j] == m.resting[j]);
                assert(m.resting[j].order_id < m.resting[idx].order_id);
            } else {
                assert(mc.resting[j] == m.resting[j + 1]);
                assert(m.resting[idx].order_id < m.resting[j + 1].order_id);
            }
        };
    } else {
        assert forall|j: int| 0 <= j < mc.resting.len() implies (#[trigger] mc.resting[j]).order_id
            != order_id by {
            if mc.resting[j].order_id == order_id {
                assert(spec_has_order(m, order_id));
            }
        };
    }
}

/// An identifier that rests nowhere can never fill: any later tick leaves
/// it out of the book too, so a cancelled order appears in no subsequent
/// fill.
pub proof fn lemma_absent_after_tick(m: EngineModel, order_id: u64, t: tick_event_t)
    requires
        spec_wf(m),
        forall|j: int| 0 <= j < m.resting.len() ==> (#[trigger] m.resting[j]).order_id != order_id,
    ensures
        ({
            let m2 = spec_tick_result(m, t).0;
            forall|j: int| 0 <= j < m2.resting.len() ==> (#[trigger] m2.resting[j]).order_id
                != order_id
        }),
{
    let m2 = spec_tick_result(m, t).0;
    if spec_tick_fits(m, t.price_tick) {
        lemma_sweep_props(
            m.ledger,
            m.resting,
            t.price_tick as int,
            m.tick_size_micro as int,
            m.maker_fee_bps as int,
        );
        assert forall|j: int| 0 <= j < m2.resting.len() implies (#[trigger] m2.resting[j]).order_id
            != order_id by {
            assert(m.resting.contains(m2.resting[j]));
            let idx = choose|idx: int|
                0 <= idx < m.resting.len() && m.resting[idx] == m2.resting[j];
            assert(m.resting[idx].order_id != order_id);
        };
    }
}

/// Flip through zero: from a long position of `q1` at an average entry of
/// `entry_val` money units per micro unit, a sell of `q2 > q1` at price
/// `price_s` realizes exactly `q1 * (price - entry)` and leaves a short
/// position of `q2 - q1` whose average entry is the fill price.
pub proof fn lemma_flip_through_zero(
    l: Ledger,
    q1: int,
    entry_val: int,
    q2: int,
    price_s: int,
    tsm: int,
    rate: int,
)
    requires
        l.position as int == q1,
        q1 > 0,
        l.entry_cost_m as int == q1 * entry_val,
        q2 > q1,
        spec_fill_fits(l, side_t::SIDE_SELL, q2, price_s, tsm, rate),
    ensures
        ({
            let l2 = spec_apply_fill(l, side_t::SIDE_SELL, q2, price_s, tsm, rate);
            let pv = price_s * tsm * (FEE_SCALE as int);
            &&& l2.position as int == -(q2 - q1)
            &&& l2.realized_m as int == l.realized_m + q1 * (pv - entry_val)
            &&& l2.entry_cost_m as int == (q2 - q1) * pv
        }),
{
    assert(q1 * (price_s * tsm) * (FEE_SCALE as int) == q1 * (price_s * tsm * (FEE_SCALE
        as int))) by (nonlinear_arith);
    assert(q1 * (price_s * tsm * (FEE_SCALE as int)) - q1 * entry_val == q1 * ((price_s * tsm
        * (FEE_SCALE as int)) - entry_val)) by (nonlinear_arith);
    assert((q2 - q1) * (price_s * tsm) * (FEE_SCALE as int) == (q2 - q1) * (price_s * tsm
        * (FEE_SCALE as int))) by (nonlinear_arith);
}

/// Fee monotonicity: two otherwise identical fills at a positive price,
/// differing only in the fee rate, end with strictly less cash under the
/// higher rate.
pub proof fn lemma_fee_monotonic(
    l: Ledger,
    side: side_t,
    qty: int,
    price_s: int,
    tsm: int,
    r1: int,
    r2: int,
)
    requires
        qty > 0,
        price_s > 0,
        tsm > 0,
        0 <= r1 < r2,
        spec_fill_fits(l, side, qty, price_s, tsm, r1),
        spec_fill_fits(l, side, qty, price_s, tsm, r2),
    ensures
        spec_apply_fill(l, side, qty, price_s, tsm, r2).cash_m < spec_apply_fill(
            l,
            side,
            qty,
            price_s,
            tsm,
            r1,
        ).cash_m,
{
    assert(qty * (price_s * tsm) * r1 < qty * (price_s * tsm) * r2) by (nonlinear_arith)
        requires
            qty > 0,
            price_s > 0,
            tsm > 0,
            r1 < r2,
    ;
}

} // verus!
