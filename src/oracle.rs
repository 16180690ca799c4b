//! The simulated index price: a price that moves by a relative change each
//! tick, never below a floor, and its exponential moving average.
use vstd::prelude::*;

use crate::fixed::{
    div_units, lemma_mul_bound, lemma_trunc_div_bound, lemma_trunc_div_scaled, mul_units, Fixed, SCALE,
};
use crate::position::LIMIT;

verus! {

/// The price the simulation starts from (60 000).
pub const INITIAL_PRICE: i128 = 6_000_000_000_000;

/// The lowest price the oracle reports (100).
pub const PRICE_FLOOR: i128 = 10_000_000_000;

/// Number of samples of the moving average's window.
pub const EMA_WINDOW: i128 = 30;

/// One index price tick.
#[derive(Clone, Copy, Debug, PartialEq, Eq, Structural)]
pub struct BtcPrice {
    pub timestamp: u64,
    pub price_usd: Fixed,
    pub moving_average: Fixed,
}

/// `alpha * p + (1 - alpha) * previous_ema`, written as
/// `previous_ema + alpha * (p - previous_ema)` with a single truncation of
/// the step toward zero, so the result stays between the two inputs.
pub open spec fn ema_of(p: Fixed, previous_ema: Fixed, alpha: Fixed) -> int {
    previous_ema.units + mul_units(alpha.units as int, p.units - previous_ema.units)
}

/// The price after a relative change `change`: `price * (1 + change)`, kept
/// within `[PRICE_FLOOR, LIMIT]`.
pub open spec fn moved_price(price: Fixed, change: Fixed) -> int {
    let p = mul_units(price.units as int, SCALE + change.units);
    if p < PRICE_FLOOR {
        PRICE_FLOOR as int
    } else if p > LIMIT {
        LIMIT as int
    } else {
        p
    }
}

/// The smoothing factor `2 / (EMA_WINDOW + 1)`.
pub open spec fn ema_alpha() -> int {
    div_units(2 * SCALE, (EMA_WINDOW + 1) * SCALE)
}

/// One step of an exponential moving average.
#[allow(non_snake_case)]
pub fn EMA(p: Fixed, previous_ema: Fixed, alpha: Fixed) -> (r: Fixed)
    requires
        0 <= alpha.units <= SCALE,
        0 <= p.units <= LIMIT,
        0 <= previous_ema.units <= LIMIT,
    ensures
        r.units == ema_of(p, previous_ema, alpha),
        p.units <= previous_ema.units ==> p.units <= r.units <= previous_ema.units,
        previous_ema.units <= p.units ==> previous_ema.units <= r.units <= p.units,
        p == previous_ema ==> r == p,
        0 <= r.units <= LIMIT,
{
    let d: i128 = p.units - previous_ema.units;
    proof {
        lemma_mul_bound(alpha.units as int, d as int, SCALE as int, LIMIT as int);
    }
    let x: i128 = alpha.units * d;
    let step: i128 = x / SCALE;
    proof {
        if d >= 0 {
            assert(0 <= x <= (SCALE as int) * d) by (nonlinear_arith)
                requires
                    x == alpha.units * d,
                    0 <= alpha.units <= SCALE,
                    d >= 0,
            ;
            lemma_trunc_div_scaled(x as int, SCALE as int, d as int);
            lemma_trunc_div_bound(x as int, SCALE as int);
        } else {
            assert((SCALE as int) * d <= x <= 0) by (nonlinear_arith)
                requires
                    x == alpha.units * d,
                    0 <= alpha.units <= SCALE,
                    d < 0,
            ;
            lemma_trunc_div_scaled(x as int, SCALE as int, -d);
            lemma_trunc_div_bound(x as int, SCALE as int);
        }
        assert(step == mul_units(alpha.units as int, d as int));
    }
    Fixed { units: previous_ema.units + step }
}

/// The price process: the current price and its moving average.
pub struct Oracle {
    price: Fixed,
    ema: Fixed,
    alpha: Fixed,
}

impl Oracle {
    pub closed spec fn wf(&self) -> bool {
        &&& PRICE_FLOOR <= self.price.units <= LIMIT
        &&& 0 <= self.ema.units <= LIMIT
        &&& self.alpha.units == ema_alpha()
        &&& 0 <= self.alpha.units <= SCALE
    }

    pub closed spec fn price(&self) -> Fixed {
        self.price
    }

    pub closed spec fn ema(&self) -> Fixed {
        self.ema
    }

    /// Starts at `INITIAL_PRICE`, with the average equal to it.
    pub fn new() -> (r: Oracle)
        ensures
            r.wf(),
            r.price().units == INITIAL_PRICE,
            r.ema().units == INITIAL_PRICE,
    {
        let alpha: i128 = 2 * SCALE * SCALE / ((EMA_WINDOW + 1) * SCALE);
        assert(alpha == ema_alpha());
        assert(0 <= alpha <= SCALE) by (nonlinear_arith)
            requires
                alpha == 2 * SCALE * SCALE / ((EMA_WINDOW + 1) * SCALE),
                SCALE == 100_000_000,
                EMA_WINDOW == 30,
        ;
        Oracle {
            price: Fixed { units: INITIAL_PRICE },
            ema: Fixed { units: INITIAL_PRICE },
            alpha: Fixed { units: alpha },
        }
    }

    /// Moves the price by the relative change `change` (a fraction of the
    /// price), keeps it within `[PRICE_FLOOR, LIMIT]`, updates the moving
    /// average, and reports both at `timestamp`.
    pub fn next_price(&mut self, change: Fixed, timestamp: u64) -> (r: BtcPrice)
        requires
            old(self).wf(),
        ensures
            final(self).wf(),
            final(self).price().units == moved_price(old(self).price(), change),
            r.price_usd == final(self).price(),
            r.price_usd.units >= PRICE_FLOOR,
            r.moving_average == final(self).ema(),
            final(self).ema().units == ema_of(
                final(self).price(),
                old(self).ema(),
                Fixed { units: ema_alpha() as i128 },
            ),
            r.timestamp == timestamp,
    {
        let moved: i128 = if change.units < -SCALE {
            proof {
                let x = self.price.units * (SCALE + change.units);
                assert(x < 0) by (nonlinear_arith)
                    requires
                        self.price.units > 0,
                        SCALE + change.units < 0,
                        x == self.price.units * (SCALE + change.units),
                ;
                lemma_trunc_div_bound(x, SCALE as int);
            }
            PRICE_FLOOR
        } else if change.units > LIMIT {
            proof {
                let x = self.price.units * (SCALE + change.units);
                assert(x >= (LIMIT + 1) * (SCALE as int)) by (nonlinear_arith)
                    requires
                        self.price.units >= PRICE_FLOOR,
                        SCALE + change.units > LIMIT,
                        x == self.price.units * (SCALE + change.units),
                        PRICE_FLOOR == 10_000_000_000,
                        LIMIT == 1_000_000_000_000_000_000,
                        SCALE == 100_000_000,
                ;
                assert(x / (SCALE as int) >= LIMIT + 1) by (nonlinear_arith)
                    requires
                        x >= (LIMIT + 1) * (SCALE as int),
                        SCALE > 0,
                ;
            }
            LIMIT
        } else {
            let factor: i128 = SCALE + change.units;
            proof {
                lemma_mul_bound(self.price.units as int, factor as int, LIMIT as int, 2 * LIMIT);
                assert(0 <= self.price.units * factor) by (nonlinear_arith)
                    requires
                        0 <= self.price.units,
                        0 <= factor,
                ;
                lemma_trunc_div_bound(self.price.units * factor, SCALE as int);
            }
            self.price.units * factor / SCALE
        };
        let price = Fixed { units: moved }.clamp(
            Fixed { units: PRICE_FLOOR },
            Fixed { units: LIMIT },
        );
        let ema = EMA(price, self.ema, self.alpha);
        self.price = price;
        self.ema = ema;
        BtcPrice { timestamp, price_usd: price, moving_average: ema }
    }
}

} // verus!
