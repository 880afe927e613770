//! Fixed-point decimal arithmetic with deterministic truncation.
//!
//! A `Dec` stores a non-negative fractional value as an integer count of
//! units of `1 / DEC_SCALE` (eighteen decimal places). Every operation that
//! divides truncates towards zero, never rounds up, so repeated identical
//! inputs always produce identical outputs.

use vstd::prelude::*;

verus! {

/// Number of raw units in one whole: eighteen decimal places.
pub const DEC_SCALE: u128 = 1_000_000_000_000_000_000;

/// Raw units in one hundredth of a whole.
pub const DEC_PERCENT: u128 = 10_000_000_000_000_000;

/// A non-negative fixed-point decimal: the represented value is
/// `raw / DEC_SCALE`.
#[derive(Clone, Copy, PartialEq, Eq, Structural, Debug)]
pub struct Dec {
    pub raw: u128,
}

/// Truncating product of an integer amount with a decimal:
/// `floor(amount * d / 1)` in token units.
pub open spec fn spec_mul_floor(amount: u128, d: Dec) -> int {
    (amount * d.raw) / (DEC_SCALE as int)
}

/// Truncating ratio `n / d` expressed in raw decimal units.
pub open spec fn spec_ratio_raw(n: u128, d: u128) -> int {
    (n * DEC_SCALE) / (d as int)
}

impl Dec {
    /// The decimal zero.
    pub fn zero() -> (r: Dec)
        ensures
            r.raw == 0,
    {
        Dec { raw: 0 }
    }

    /// `p` hundredths, e.g. `percent(40)` is the fraction 40/100.
    pub fn percent(p: u64) -> (r: Dec)
        ensures
            r.raw == p * DEC_PERCENT,
    {
        Dec { raw: (p as u128) * DEC_PERCENT }
    }

    /// The truncating ratio `n / d`.
    pub fn from_ratio(n: u128, d: u128) -> (r: Dec)
        requires
            d > 0,
            n * DEC_SCALE <= u128::MAX,
        ensures
            r.raw == spec_ratio_raw(n, d),
    {
        Dec { raw: (n * DEC_SCALE) / d }
    }

    /// Exact decimal addition.
    pub fn add(self, other: Dec) -> (r: Dec)
        requires
            self.raw + other.raw <= u128::MAX,
        ensures
            r.raw == self.raw + other.raw,
    {
        Dec { raw: self.raw + other.raw }
    }

    /// Truncating multiplication by an integer amount, yielding an integer
    /// amount: `floor(amount * self)`.
    pub fn mul_floor(self, amount: u128) -> (r: u128)
        requires
            amount * self.raw <= u128::MAX,
        ensures
            r == spec_mul_floor(amount, self),
    {
        (amount * self.raw) / DEC_SCALE
    }

    /// Strict comparison of the represented values.
    pub fn gt(self, other: Dec) -> (r: bool)
        ensures
            r == (self.raw > other.raw),
    {
        self.raw > other.raw
    }

    /// Whether the represented value is zero.
    pub fn is_zero(self) -> (r: bool)
        ensures
            r == (self.raw == 0),
    {
        self.raw == 0
    }
}

/// Truncating division by a positive divisor never exceeds the dividend.
pub proof fn lemma_div_le_self(x: int, d: int)
    requires
        x >= 0,
        d >= 1,
    ensures
        0 <= x / d <= x,
{
    assert(0 <= x / d <= x) by (nonlinear_arith)
        requires
            x >= 0,
            d >= 1,
    ;
}

/// Truncating division is monotone in the dividend.
pub proof fn lemma_div_ordered(x: int, y: int, d: int)
    requires
        0 <= x <= y,
        d >= 1,
    ensures
        x / d <= y / d,
{
    assert(x / d <= y / d) by (nonlinear_arith)
        requires
            0 <= x <= y,
            d >= 1,
    ;
}

/// Multiplication by a non-negative factor is monotone.
pub proof fn lemma_mul_ordered(a: int, x: int, y: int)
    requires
        a >= 0,
        0 <= x <= y,
    ensures
        a * x <= a * y,
{
    assert(a * x <= a * y) by (nonlinear_arith)
        requires
            a >= 0,
            0 <= x <= y,
    ;
}

/// The product of a quotient with its divisor stays within the dividend:
/// `d * (x / d) <= x`, with a remainder smaller than `d`.
pub proof fn lemma_mul_div_bounds(x: int, d: int)
    requires
        x >= 0,
        d >= 1,
    ensures
        d * (x / d) <= x,
        x < d * (x / d) + d,
{
    assert(d * (x / d) <= x && x < d * (x / d) + d) by (nonlinear_arith)
        requires
            x >= 0,
            d >= 1,
    ;
}

} // verus!
