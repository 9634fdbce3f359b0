//! Fixed-point decimal numbers with nine fractional digits.
//!
//! Every amount of resource and every point in simulated time is a `Fixed`:
//! a signed count of billionths. Sums and differences of such numbers are
//! exact, so the conservation laws of the engine hold without rounding, and
//! the tolerance used when comparing times is exactly one unit of least
//! precision.

use vstd::prelude::*;

verus! {

/// Number of raw units in one whole.
pub const SCALE: i64 = 1_000_000_000;

/// The comparison tolerance, in raw units.
pub const EPSILON_RAW: i64 = 1;

/// A signed fixed-point decimal, held as a count of billionths.
#[derive(Clone, Copy, Debug, PartialEq, Eq, Structural, Hash, PartialOrd, Ord)]
pub struct Fixed {
    pub raw: i64,
}

impl View for Fixed {
    type V = int;

    open spec fn view(&self) -> int {
        self.raw as int
    }
}

/// Whether a mathematical integer is the raw value of some `Fixed`.
pub open spec fn representable(x: int) -> bool {
    i64::MIN <= x <= i64::MAX
}

/// The larger of two integers.
pub open spec fn max_int(a: int, b: int) -> int {
    if a >= b {
        a
    } else {
        b
    }
}

/// The smaller of two integers.
pub open spec fn min_int(a: int, b: int) -> int {
    if a <= b {
        a
    } else {
        b
    }
}

impl Fixed {
    /// The number whose raw value is `raw`.
    pub fn from_raw(raw: i64) -> (r: Fixed)
        ensures
            r@ == raw,
    {
        Fixed { raw }
    }

    /// The raw value: the number of billionths.
    pub fn raw(&self) -> (r: i64)
        ensures
            r == self@,
    {
        self.raw
    }

    /// The whole number `units`, or `None` when it is too large to hold.
    pub fn from_units(units: i64) -> (r: Option<Fixed>)
        ensures
            representable(units * SCALE) <==> r is Some,
            r matches Some(f) ==> f@ == units * SCALE,
    {
        match units.checked_mul(SCALE) {
            Some(raw) => Some(Fixed { raw }),
            None => None,
        }
    }

    pub fn zero() -> (r: Fixed)
        ensures
            r@ == 0,
    {
        Fixed { raw: 0 }
    }

    pub fn one() -> (r: Fixed)
        ensures
            r@ == SCALE,
    {
        Fixed { raw: SCALE }
    }

    /// The tolerance within which two times count as the same.
    pub fn epsilon() -> (r: Fixed)
        ensures
            r@ == EPSILON_RAW,
    {
        Fixed { raw: EPSILON_RAW }
    }

    /// The sum, or `None` when it is not representable.
    pub fn checked_add(self, other: Fixed) -> (r: Option<Fixed>)
        ensures
            representable(self@ + other@) <==> r is Some,
            r matches Some(f) ==> f@ == self@ + other@,
    {
        match self.raw.checked_add(other.raw) {
            Some(raw) => Some(Fixed { raw }),
            None => None,
        }
    }

    /// The difference, or `None` when it is not representable.
    pub fn checked_sub(self, other: Fixed) -> (r: Option<Fixed>)
        ensures
            representable(self@ - other@) <==> r is Some,
            r matches Some(f) ==> f@ == self@ - other@,
    {
        match self.raw.checked_sub(other.raw) {
            Some(raw) => Some(Fixed { raw }),
            None => None,
        }
    }

    pub fn min(self, other: Fixed) -> (r: Fixed)
        ensures
            r@ == min_int(self@, other@),
    {
        if self.raw <= other.raw {
            self
        } else {
            other
        }
    }

    pub fn max(self, other: Fixed) -> (r: Fixed)
        ensures
            r@ == max_int(self@, other@),
    {
        if self.raw >= other.raw {
            self
        } else {
            other
        }
    }

    pub fn is_positive(&self) -> (r: bool)
        ensures
            r == (self@ > 0),
    {
        self.raw > 0
    }

    pub fn is_negative(&self) -> (r: bool)
        ensures
            r == (self@ < 0),
    {
        self.raw < 0
    }
}

} // verus!
