//! OHLC candle model: prices as integer tick counts, volume as a scaled
//! integer with six implied decimal digits.

use vstd::prelude::*;

verus! {

/// One OHLC bar. Eight 64-bit fields: timestamps in milliseconds, prices
/// tick-quantized, volume micro-scaled.
#[derive(Copy, Clone, Debug, Default, PartialEq, Eq, Structural)]
pub struct Candle {
    /// Unix timestamp in milliseconds (start of candle).
    pub ts_open: i64,
    /// Unix timestamp in milliseconds (end of candle).
    pub ts_close: i64,
    /// Opening price, tick-quantized.
    pub open_tick: i64,
    /// Highest price, tick-quantized.
    pub high_tick: i64,
    /// Lowest price, tick-quantized.
    pub low_tick: i64,
    /// Closing price, tick-quantized.
    pub close_tick: i64,
    /// Volume, scaled by one million.
    pub volume_scaled: i64,
    /// Number of trades in the candle period.
    pub trade_count: i64,
}

impl Candle {
    /// Integrity of a candle: positive, ordered timestamps; low at or below
    /// open, close and high, which bound open and close; non-negative
    /// volume and trade count.
    pub open spec fn spec_valid(self) -> bool {
        &&& self.ts_open > 0
        &&& self.ts_close > 0
        &&& self.ts_close >= self.ts_open
        &&& self.low_tick <= self.high_tick
        &&& self.low_tick <= self.open_tick <= self.high_tick
        &&& self.low_tick <= self.close_tick <= self.high_tick
        &&& self.volume_scaled >= 0
        &&& self.trade_count >= 0
    }

    /// Validate candle data integrity; never panics on bad data.
    pub fn is_valid(&self) -> (r: bool)
        ensures
            r == self.spec_valid(),
    {
        if self.ts_open <= 0 || self.ts_close <= 0 {
            return false;
        }
        if self.ts_close < self.ts_open {
            return false;
        }
        if self.low_tick > self.high_tick {
            return false;
        }
        if self.open_tick < self.low_tick || self.open_tick > self.high_tick {
            return false;
        }
        if self.close_tick < self.low_tick || self.close_tick > self.high_tick {
            return false;
        }
        if self.volume_scaled < 0 {
            return false;
        }
        if self.trade_count < 0 {
            return false;
        }
        true
    }
}

/// Division rounded to the nearest integer, ties away from zero, for a
/// positive divisor: the rule that quantizes a micro-scaled price to ticks.
pub open spec fn spec_round_div(a: int, b: int) -> int {
    if a >= 0 {
        if 2 * (a % b) >= b {
            a / b + 1
        } else {
            a / b
        }
    } else {
        if 2 * ((-a) % b) >= b {
            -((-a) / b + 1)
        } else {
            -((-a) / b)
        }
    }
}

/// Divide rounding to the nearest integer, ties away from zero. The result
/// of a division by a positive divisor never grows in magnitude, so it
/// stays in range.
pub fn round_div(a: i64, b: i64) -> (r: i64)
    requires
        b >= 1,
    ensures
        r as int == spec_round_div(a as int, b as int),
{
    broadcast use vstd::arithmetic::div_mod::lemma_div_nonincreasing;
    broadcast use vstd::arithmetic::div_mod::lemma_div_pos_is_pos;
    broadcast use vstd::arithmetic::div_mod::lemma_mod_bound;
    broadcast use vstd::arithmetic::div_mod::lemma_div_is_ordered;
    broadcast use vstd::arithmetic::div_mod::lemma_div_is_ordered_by_denominator;

    let neg = a < 0;
    let aa: i128 = a as i128;
    let mag: i128 = if neg {
        -aa
    } else {
        aa
    };
    let bb: i128 = b as i128;
    let q: i128 = match mag.checked_div(bb) {
        Some(v) => v,
        None => unreached(),
    };
    let rem: i128 = match mag.checked_rem(bb) {
        Some(v) => v,
        None => unreached(),
    };
    proof {
        if mag == 0 {
            vstd::arithmetic::div_mod::lemma_small_mod(0, bb as nat);
            vstd::arithmetic::div_mod::lemma_div_of0(bb as int);
        }
        assert(q == mag as int / bb as int);
        assert(rem == mag as int % bb as int);
        assert(0 <= rem < bb);
        if b >= 2 {
            assert(mag as int / bb as int <= mag as int / 2);
        }
    }
    let up = 2 * rem >= bb;
    let r0: i128 = if up {
        q + 1
    } else {
        q
    };
    proof {
        if b == 1 {
            assert(rem == 0);
        }
    }
    let rv: i128 = if neg {
        -r0
    } else {
        r0
    };
    rv as i64
}

} // verus!
