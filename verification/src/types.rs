//! Value types shared across the engine: sides, order types, events and
//! error statuses.

#![allow(non_camel_case_types)]

use vstd::prelude::*;

verus! {

/// Side of a trade or order: the direction in which quantity is taken.
#[derive(Debug, Copy, Clone, PartialEq, Eq, Structural)]
pub enum side_t {
    SIDE_BUY,
    SIDE_SELL,
}

impl side_t {
    /// Signed direction of the side: `+1` for a buy, `-1` for a sell.
    pub open spec fn direction(self) -> int {
        match self {
            side_t::SIDE_BUY => 1,
            side_t::SIDE_SELL => -1,
        }
    }

    /// Decode a side from its wire code: `0` is a buy, `1` is a sell.
    pub fn from_code(code: i64) -> (r: Option<side_t>)
        ensures
            r == spec_side_from_code(code),
    {
        if code == 0 {
            Some(side_t::SIDE_BUY)
        } else if code == 1 {
            Some(side_t::SIDE_SELL)
        } else {
            None
        }
    }
}

/// Side decoding rule: `0` is a buy, `1` is a sell, all else is rejected.
pub open spec fn spec_side_from_code(code: i64) -> Option<side_t> {
    if code == 0 {
        Some(side_t::SIDE_BUY)
    } else if code == 1 {
        Some(side_t::SIDE_SELL)
    } else {
        None
    }
}

/// Kind of an order: resting limit order or immediate market order.
#[derive(Debug, Copy, Clone, PartialEq, Eq, Structural)]
pub enum order_type_t {
    ORDER_TYPE_LIMIT,
    ORDER_TYPE_MARKET,
}

impl order_type_t {
    /// Decode an order type from its wire code: `0` is limit, `1` is market.
    pub fn from_code(code: i64) -> (r: Option<order_type_t>)
        ensures
            r == spec_order_type_from_code(code),
    {
        if code == 0 {
            Some(order_type_t::ORDER_TYPE_LIMIT)
        } else if code == 1 {
            Some(order_type_t::ORDER_TYPE_MARKET)
        } else {
            None
        }
    }
}

/// Order-type decoding rule: `0` is limit, `1` is market, all else rejected.
pub open spec fn spec_order_type_from_code(code: i64) -> Option<order_type_t> {
    if code == 0 {
        Some(order_type_t::ORDER_TYPE_LIMIT)
    } else if code == 1 {
        Some(order_type_t::ORDER_TYPE_MARKET)
    } else {
        None
    }
}

/// One market trade print: timestamp, price in ticks, quantity in
/// millionths, and the aggressor side.
#[derive(Debug, Copy, Clone)]
pub struct tick_event_t {
    pub ts_ms: i64,
    pub price_tick: i64,
    pub qty: i64,
    pub side: side_t,
}

/// An order command handed to the engine. The identifier is assigned by the
/// engine; the one given here is ignored.
#[derive(Debug, Copy, Clone)]
pub struct order_t {
    pub order_id: u64,
    pub type_: order_type_t,
    pub side: side_t,
    pub qty: i64,
    pub price_tick: i64,
}

/// Why an engine call was rejected. A rejected call leaves the account state
/// exactly as it was.
#[derive(Debug, Copy, Clone, PartialEq, Eq, Structural)]
pub enum EngineError {
    /// Creation-time: tick size not positive, or a fee or spread rate
    /// negative.
    InvalidConfig,
    /// A side code that is neither buy nor sell.
    InvalidSide,
    /// An order-type code that is neither limit nor market.
    InvalidOrderType,
    /// An order quantity that is not strictly positive.
    InvalidQuantity,
    /// A market order before any tick has been observed.
    NoMarketPrice,
    /// A cancel of an identifier that is not resting.
    OrderNotFound,
    /// The exact integer accounting for this call would leave the
    /// 128-bit range; the call is refused rather than rounded.
    Overflow,
}

/// Why a batch of ticks was rejected or cut short. Ticks before the failed
/// one stay applied; the failed tick itself has no effect.
#[derive(Debug, Copy, Clone, PartialEq, Eq, Structural)]
pub enum BatchError {
    /// The four input vectors do not all have the same length; nothing was
    /// applied.
    LengthMismatch,
    /// The tick at this index was rejected, for the given reason.
    Step(usize, EngineError),
}

} // verus!
