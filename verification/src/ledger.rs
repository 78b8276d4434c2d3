//! Position & PnL ledger: applies one fill (side, quantity, price, fee rate)
//! to cash, net position, entry cost and realized PnL, in exact 128-bit
//! integer arithmetic.
//!
//! Units. Quantities are scaled integers with six implied decimal digits
//! ("micro units"). Prices travel as integer tick counts; inside a fill a
//! price is scaled by `PRICE_SCALE` so that the synthetic half-spread of a
//! market order (mark * spread_bps / 20000) is an exact integer. The tick
//! size is itself a micro-scaled integer. Money (cash, entry cost, PnL) is
//! kept in units of `currency / MONEY_PER_CURRENCY`, the product of all four
//! scales, so that notional, fee, and spread arithmetic is exact: one money
//! unit is one currency unit divided by 2 * 10^20.

use vstd::prelude::*;

use crate::types::side_t;

verus! {

/// Price sub-ticks per tick: `20000` makes `mark * spread_bps / 20000` exact.
pub const PRICE_SCALE: i64 = 20000;

/// Micro units per natural unit of quantity or of tick size.
pub const MICRO_SCALE: i64 = 1_000_000;

/// Basis-point denominator: a fee of `r` bps is `r / 10000` of the notional.
pub const FEE_SCALE: i64 = 10_000;

/// Money units per micro unit of currency:
/// `PRICE_SCALE * MICRO_SCALE * FEE_SCALE`.
pub const MONEY_PER_MICRO: i128 = 200_000_000_000_000;

/// Money units per whole currency unit.
pub const MONEY_PER_CURRENCY: i128 = 200_000_000_000_000_000_000;

/// The account fields a fill acts on, in exact integer arithmetic.
///
/// `entry_cost_m` is the cost of the open position: the sum, over the fills
/// that opened it, of quantity times price, in money units. The average
/// entry price is `entry_cost_m` divided by the position magnitude; it is
/// kept as this exact pair rather than as a rounded quotient. When the
/// position is flat the entry cost is zero.
#[derive(Debug, Copy, Clone, PartialEq, Eq, Structural)]
pub struct Ledger {
    /// Cash, in money units.
    pub cash_m: i128,
    /// Net position in micro units: positive = long, negative = short.
    pub position: i128,
    /// Cost of the open position, in money units.
    pub entry_cost_m: i128,
    /// Cumulative realized PnL, in money units.
    pub realized_m: i128,
}

/// Sign of an integer: `1`, `-1` or `0`.
pub open spec fn sgn(x: int) -> int {
    if x > 0 {
        1
    } else if x < 0 {
        -1
    } else {
        0
    }
}

/// Absolute value.
pub open spec fn abs1(x: int) -> int {
    if x >= 0 {
        x
    } else {
        -x
    }
}

/// Truncating division (toward zero) by a positive divisor, as the `/`
/// operator of the executable integer types computes it.
pub open spec fn trunc_div(a: int, b: int) -> int {
    if a >= 0 {
        a / b
    } else {
        -((-a) / b)
    }
}

/// Whether a mathematical integer is representable as an `i128`.
pub open spec fn fits_i128(x: int) -> bool {
    i128::MIN <= x <= i128::MAX
}

/// The ledger after one fill, over unbounded integers.
///
/// The fill buys (`d == 1`) or sells (`d == -1`) `qty` micro units at price
/// `price_s` (in sub-ticks), with tick size `tsm` (micro units) and fee rate
/// `rate` (basis points). Cash always moves by the full notional against the
/// fill direction, and the fee is always debited. A fill in the direction of
/// the position (or from flat) adds its cost to the entry cost; a fill
/// against it first closes `min(qty, |position|)` at the average entry
/// price, realizing `closed * (price - average entry) * sign(position)`, and
/// any remainder opens a new position at the fill price. A partial close
/// removes the closed share of the entry cost with truncating division.
pub open spec fn spec_apply_fill(
    l: Ledger,
    side: side_t,
    qty: int,
    price_s: int,
    tsm: int,
    rate: int,
) -> Ledger {
    let d = side.direction();
    let pvt = price_s * tsm;
    let notional = qty * pvt * (FEE_SCALE as int);
    let fee = qty * pvt * rate;
    let cash2 = l.cash_m - d * notional - fee;
    let pos0 = l.position as int;
    let pos2 = pos0 + d * qty;
    if pos0 == 0 || sgn(pos0) == d {
        Ledger {
            cash_m: cash2 as i128,
            position: pos2 as i128,
            entry_cost_m: (l.entry_cost_m + notional) as i128,
            realized_m: l.realized_m,
        }
    } else {
        let s = sgn(pos0);
        let ap = abs1(pos0);
        if qty >= ap {
            let close_val = ap * pvt * (FEE_SCALE as int);
            let rem_val = (qty - ap) * pvt * (FEE_SCALE as int);
            Ledger {
                cash_m: cash2 as i128,
                position: pos2 as i128,
                entry_cost_m: rem_val as i128,
                realized_m: (l.realized_m + s * (close_val - l.entry_cost_m)) as i128,
            }
        } else {
            let share = trunc_div(l.entry_cost_m * qty, ap);
            Ledger {
                cash_m: cash2 as i128,
                position: pos2 as i128,
                entry_cost_m: (l.entry_cost_m - share) as i128,
                realized_m: (l.realized_m + s * (notional - share)) as i128,
            }
        }
    }
}

/// Whether every intermediate and final value of `spec_apply_fill` is
/// representable as an `i128`, in the order the executable code computes
/// them. `apply_fill` succeeds exactly when this holds.
pub open spec fn spec_fill_fits(
    l: Ledger,
    side: side_t,
    qty: int,
    price_s: int,
    tsm: int,
    rate: int,
) -> bool {
    let d = side.direction();
    let pvt = price_s * tsm;
    let c = qty * pvt;
    let notional = c * (FEE_SCALE as int);
    let fee = c * rate;
    let cash1 = l.cash_m - d * notional;
    let cash2 = cash1 - fee;
    let pos0 = l.position as int;
    let pos2 = pos0 + d * qty;
    &&& fits_i128(pvt)
    &&& fits_i128(c)
    &&& fits_i128(notional)
    &&& fits_i128(fee)
    &&& fits_i128(cash1)
    &&& fits_i128(cash2)
    &&& fits_i128(pos2)
    &&& if pos0 == 0 || sgn(pos0) == d {
        fits_i128(l.entry_cost_m + notional)
    } else {
        let s = sgn(pos0);
        let ap = abs1(pos0);
        &&& fits_i128(ap)
        &&& if qty >= ap {
            let close_val = ap * pvt * (FEE_SCALE as int);
            let rem_val = (qty - ap) * pvt * (FEE_SCALE as int);
            &&& fits_i128(ap * pvt)
            &&& fits_i128(close_val)
            &&& fits_i128(close_val - l.entry_cost_m)
            &&& fits_i128(l.realized_m + s * (close_val - l.entry_cost_m))
            &&& fits_i128((qty - ap) * pvt)
            &&& fits_i128(rem_val)
        } else {
            let share = trunc_div(l.entry_cost_m * qty, ap);
            &&& fits_i128(l.entry_cost_m * qty)
            &&& fits_i128(share)
            &&& fits_i128(notional - share)
            &&& fits_i128(l.realized_m + s * (notional - share))
            &&& fits_i128(l.entry_cost_m - share)
        }
    }
}

/// A fill with positive quantity keeps the bookkeeping rule that a flat
/// position has zero entry cost: closing a position exactly clears its
/// entry cost, and any fill that leaves a position open is not flat.
pub proof fn lemma_fill_preserves_flat_entry(
    l: Ledger,
    side: side_t,
    qty: int,
    price_s: int,
    tsm: int,
    rate: int,
)
    requires
        qty > 0,
        l.position == 0 ==> l.entry_cost_m == 0,
        spec_fill_fits(l, side, qty, price_s, tsm, rate),
    ensures
        ({
            let l2 = spec_apply_fill(l, side, qty, price_s, tsm, rate);
            l2.position == 0 ==> l2.entry_cost_m == 0
        }),
{
    let l2 = spec_apply_fill(l, side, qty, price_s, tsm, rate);
    let pos0 = l.position as int;
    let pvt = price_s * tsm;
    if side == side_t::SIDE_BUY {
        if pos0 == 0 || sgn(pos0) == 1 {
            assert(pos0 + qty != 0);
        } else {
            let ap = abs1(pos0);
            if qty >= ap {
                if qty == ap {
                    assert((qty - ap) * pvt * (FEE_SCALE as int) == 0) by (nonlinear_arith)
                        requires
                            qty == ap,
                    ;
                }
            }
        }
    } else {
        if pos0 == 0 || sgn(pos0) == -1 {
            assert(pos0 - qty != 0);
        } else {
            let ap = abs1(pos0);
            if qty >= ap {
                if qty == ap {
                    assert((qty - ap) * pvt * (FEE_SCALE as int) == 0) by (nonlinear_arith)
                        requires
                            qty == ap,
                    ;
                }
            }
        }
    }
}

impl Ledger {
    /// A fresh ledger: the given cash, flat position, nothing realized.
    pub open spec fn spec_fresh(cash_m: int) -> Ledger {
        Ledger { cash_m: cash_m as i128, position: 0, entry_cost_m: 0, realized_m: 0 }
    }

    /// Build the fresh ledger for a starting cash amount.
    pub fn fresh(cash_m: i128) -> (r: Ledger)
        ensures
            r == Ledger::spec_fresh(cash_m as int),
    {
        Ledger { cash_m, position: 0, entry_cost_m: 0, realized_m: 0 }
    }

    /// Apply one fill, or report that its exact accounting would leave the
    /// 128-bit range. On success the result is exactly `spec_apply_fill`.
    #[verifier::rlimit(60)]
    #[verifier::spinoff_prover]
    pub fn apply_fill(&self, side: side_t, qty: i64, price_s: i128, tsm: i64, rate: i64) -> (r:
        Result<Ledger, ()>)
        requires
            qty > 0,
            tsm > 0,
        ensures
            r is Ok <==> spec_fill_fits(*self, side, qty as int, price_s as int, tsm as int, rate as int),
            r matches Ok(l2) ==> l2 == spec_apply_fill(
                *self,
                side,
                qty as int,
                price_s as int,
                tsm as int,
                rate as int,
            ),
    {
        let buy = side == side_t::SIDE_BUY;
        let pvt = match price_s.checked_mul(tsm as i128) {
            Some(v) => v,
            None => {
                return Err(());
            },
        };
        let c = match (qty as i128).checked_mul(pvt) {
            Some(v) => v,
            None => {
                return Err(());
            },
        };
        let notional = match c.checked_mul(FEE_SCALE as i128) {
            Some(v) => v,
            None => {
                return Err(());
            },
        };
        let fee = match c.checked_mul(rate as i128) {
            Some(v) => v,
            None => {
                return Err(());
            },
        };
        let cash1 = match (if buy {
            self.cash_m.checked_sub(notional)
        } else {
            self.cash_m.checked_add(notional)
        }) {
            Some(v) => v,
            None => {
                return Err(());
            },
        };
        let cash2 = match cash1.checked_sub(fee) {
            Some(v) => v,
            None => {
                return Err(());
            },
        };
        let pos2 = match (if buy {
            self.position.checked_add(qty as i128)
        } else {
            self.position.checked_sub(qty as i128)
        }) {
            Some(v) => v,
            None => {
                return Err(());
            },
        };
        let pos0 = self.position;
        if pos0 == 0 || (pos0 > 0 && buy) || (pos0 < 0 && !buy) {
            // The fill opens or increases the position.
            let entry2 = match self.entry_cost_m.checked_add(notional) {
                Some(v) => v,
                None => {
                    return Err(());
                },
            };
            Ok(Ledger { cash_m: cash2, position: pos2, entry_cost_m: entry2, realized_m: self.realized_m })
        } else {
            let long = pos0 > 0;
            if !long && pos0 == i128::MIN {
                return Err(());
            }
            let ap = if long {
                pos0
            } else {
                -pos0
            };
            if qty as i128 >= ap {
                // Full close, possibly flipping through zero.
                let t1 = match ap.checked_mul(pvt) {
                    Some(v) => v,
                    None => {
                        return Err(());
                    },
                };
                let close_val = match t1.checked_mul(FEE_SCALE as i128) {
                    Some(v) => v,
                    None => {
                        return Err(());
                    },
                };
                let diff = match close_val.checked_sub(self.entry_cost_m) {
                    Some(v) => v,
                    None => {
                        return Err(());
                    },
                };
                let realized2 = match (if long {
                    self.realized_m.checked_add(diff)
                } else {
                    self.realized_m.checked_sub(diff)
                }) {
                    Some(v) => v,
                    None => {
                        return Err(());
                    },
                };
                let rem = qty as i128 - ap;
                let t2 = match rem.checked_mul(pvt) {
                    Some(v) => v,
                    None => {
                        return Err(());
                    },
                };
                let rem_val = match t2.checked_mul(FEE_SCALE as i128) {
                    Some(v) => v,
                    None => {
                        return Err(());
                    },
                };
                Ok(Ledger { cash_m: cash2, position: pos2, entry_cost_m: rem_val, realized_m: realized2 })
            } else {
                // Partial close: remove the closed share of the entry cost.
                let num = match self.entry_cost_m.checked_mul(qty as i128) {
                    Some(v) => v,
                    None => {
                        return Err(());
                    },
                };
                let share = match num.checked_div(ap) {
                    Some(v) => v,
                    None => {
                        return Err(());
                    },
                };
                let diff = match notional.checked_sub(share) {
                    Some(v) => v,
                    None => {
                        return Err(());
                    },
                };
                let realized2 = match (if long {
                    self.realized_m.checked_add(diff)
                } else {
                    self.realized_m.checked_sub(diff)
                }) {
                    Some(v) => v,
                    None => {
                        return Err(());
                    },
                };
                let entry2 = match self.entry_cost_m.checked_sub(share) {
                    Some(v) => v,
                    None => {
                        return Err(());
                    },
                };
                Ok(Ledger { cash_m: cash2, position: pos2, entry_cost_m: entry2, realized_m: realized2 })
            }
        }
    }
}

} // verus!
