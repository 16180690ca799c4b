//! Fixed-point decimal numbers with eight fractional digits.
//!
//! Every price, quantity and balance of the engine is a `Fixed`: an integer
//! count of 10^-8 units. All arithmetic is exact integer arithmetic; products
//! and quotients are truncated toward zero at the eighth fractional digit.
//! The `checked_*` operations say when a result leaves the `i128` range.
use vstd::prelude::*;

verus! {

/// Number of units in one whole.
pub const SCALE: i128 = 100_000_000;

/// A decimal value `units / SCALE`.
#[derive(Clone, Copy, Debug, PartialEq, Eq, Structural)]
pub struct Fixed {
    pub units: i128,
}

/// Integer division truncated toward zero (the rounding of Rust's `/`).
pub open spec fn trunc_div(x: int, d: int) -> int {
    if d == 0 {
        0
    } else if x == 0 {
        0
    } else if x > 0 && d > 0 {
        x / d
    } else if x < 0 && d < 0 {
        (x * -1) / (d * -1)
    } else if x < 0 {
        ((x * -1) / d) * -1
    } else {
        (x / (d * -1)) * -1
    }
}

pub open spec fn fits_i128(x: int) -> bool {
    i128::MIN <= x <= i128::MAX
}

/// Units of the product of two fixed-point values.
pub open spec fn mul_units(a: int, b: int) -> int {
    trunc_div(a * b, SCALE as int)
}

/// Units of the quotient of two fixed-point values.
pub open spec fn div_units(a: int, b: int) -> int {
    trunc_div(a * SCALE, b)
}

/// The checked product: `None` exactly when the exact intermediate product
/// of the units leaves the `i128` range.
pub open spec fn checked_mul_spec(a: Fixed, b: Fixed) -> Option<Fixed> {
    if fits_i128(a.units * b.units) {
        Some(Fixed { units: mul_units(a.units as int, b.units as int) as i128 })
    } else {
        None
    }
}

/// The checked quotient: `None` for a zero divisor or when the scaled
/// dividend or the result leaves the `i128` range.
pub open spec fn checked_div_spec(a: Fixed, b: Fixed) -> Option<Fixed> {
    if b.units == 0 || !fits_i128(a.units * SCALE) || !fits_i128(
        div_units(a.units as int, b.units as int),
    ) {
        None
    } else {
        Some(Fixed { units: div_units(a.units as int, b.units as int) as i128 })
    }
}

pub open spec fn checked_add_spec(a: Fixed, b: Fixed) -> Option<Fixed> {
    if fits_i128(a.units + b.units) {
        Some(Fixed { units: (a.units + b.units) as i128 })
    } else {
        None
    }
}

pub open spec fn checked_sub_spec(a: Fixed, b: Fixed) -> Option<Fixed> {
    if fits_i128(a.units - b.units) {
        Some(Fixed { units: (a.units - b.units) as i128 })
    } else {
        None
    }
}

impl Fixed {
    pub fn from_units(units: i128) -> (r: Fixed)
        ensures
            r.units == units,
    {
        Fixed { units }
    }

    /// The whole number `n`.
    pub fn from_int(n: i64) -> (r: Fixed)
        ensures
            r.units == n * SCALE,
    {
        assert(-0x8000_0000_0000_0000 * 100_000_000 <= n * 100_000_000 <= 0x7fff_ffff_ffff_ffff
            * 100_000_000) by (nonlinear_arith)
            requires
                -0x8000_0000_0000_0000 <= n <= 0x7fff_ffff_ffff_ffff,
        ;
        Fixed { units: (n as i128) * SCALE }
    }

    pub fn min(self, other: Fixed) -> (r: Fixed)
        ensures
            r.units == if self.units <= other.units {
                self.units
            } else {
                other.units
            },
    {
        if self.units <= other.units {
            self
        } else {
            other
        }
    }

    pub fn max(self, other: Fixed) -> (r: Fixed)
        ensures
            r.units == if self.units >= other.units {
                self.units
            } else {
                other.units
            },
    {
        if self.units >= other.units {
            self
        } else {
            other
        }
    }

    /// The value limited to the range `[lo, hi]`.
    pub fn clamp(self, lo: Fixed, hi: Fixed) -> (r: Fixed)
        requires
            lo.units <= hi.units,
        ensures
            r.units == if self.units < lo.units {
                lo.units
            } else if self.units > hi.units {
                hi.units
            } else {
                self.units
            },
            lo.units <= r.units <= hi.units,
    {
        if self.units < lo.units {
            lo
        } else if self.units > hi.units {
            hi
        } else {
            self
        }
    }

    pub fn checked_add(self, other: Fixed) -> (r: Option<Fixed>)
        ensures
            r == checked_add_spec(self, other),
    {
        match self.units.checked_add(other.units) {
            Some(u) => Some(Fixed { units: u }),
            None => None,
        }
    }

    pub fn checked_sub(self, other: Fixed) -> (r: Option<Fixed>)
        ensures
            r == checked_sub_spec(self, other),
    {
        match self.units.checked_sub(other.units) {
            Some(u) => Some(Fixed { units: u }),
            None => None,
        }
    }

    pub fn checked_mul(self, other: Fixed) -> (r: Option<Fixed>)
        ensures
            r == checked_mul_spec(self, other),
    {
        match self.units.checked_mul(other.units) {
            Some(p) => {
                let q = p / SCALE;
                assert(q == trunc_div(p as int, SCALE as int));
                Some(Fixed { units: q })
            },
            None => None,
        }
    }

    pub fn checked_div(self, other: Fixed) -> (r: Option<Fixed>)
        ensures
            r == checked_div_spec(self, other),
    {
        if other.units == 0 {
            return None;
        }
        match self.units.checked_mul(SCALE) {
            Some(p) => match p.checked_div(other.units) {
                Some(q) => Some(Fixed { units: q }),
                None => None,
            },
            None => None,
        }
    }
}

/// Truncated division by a positive divisor never grows the magnitude.
pub proof fn lemma_trunc_div_bound(x: int, d: int)
    requires
        d >= 1,
    ensures
        x >= 0 ==> 0 <= trunc_div(x, d) <= x,
        x < 0 ==> x <= trunc_div(x, d) <= 0,
{
    if x > 0 {
        assert(0 <= x / d <= x) by (nonlinear_arith)
            requires
                x > 0,
                d >= 1,
        ;
    } else if x < 0 {
        assert(0 <= (x * -1) / d <= x * -1) by (nonlinear_arith)
            requires
                x < 0,
                d >= 1,
        ;
    }
}

/// Dividing a value of magnitude at most `b * d` by `d` gives magnitude at
/// most `b`.
pub proof fn lemma_trunc_div_scaled(x: int, d: int, b: int)
    requires
        d >= 1,
        b >= 0,
        -(b * d) <= x <= b * d,
    ensures
        -b <= trunc_div(x, d) <= b,
{
    if x > 0 {
        assert(x / d <= b) by (nonlinear_arith)
            requires
                0 < x <= b * d,
                d >= 1,
        ;
    } else if x < 0 {
        assert((x * -1) / d <= b) by (nonlinear_arith)
            requires
                0 < x * -1 <= b * d,
                d >= 1,
        ;
    }
}

/// A bound on the magnitude of a product.
pub proof fn lemma_mul_bound(a: int, b: int, ba: int, bb: int)
    requires
        -ba <= a <= ba,
        -bb <= b <= bb,
    ensures
        -(ba * bb) <= a * b <= ba * bb,
{
    assert(-(ba * bb) <= a * b <= ba * bb) by (nonlinear_arith)
        requires
            -ba <= a <= ba,
            -bb <= b <= bb,
    ;
}

} // verus!
