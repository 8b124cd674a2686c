//! Exact fixed-point money amounts.
//!
//! An `Amount` is a signed decimal number stored as an integer count of
//! units of `10^-18`, so every value with at most 18 fractional decimal
//! digits is represented exactly and arithmetic never rounds.

use vstd::prelude::*;

verus! {

/// Number of fractional decimal digits carried by an `Amount`.
pub const AMOUNT_SCALE: u32 = 18;

/// Largest magnitude, in `10^-18` units, that a well-formed `Amount` holds.
pub const UNITS_MAX: i128 = 10_000_000_000_000_000_000_000_000_000_000_000_000;

/// `10^n`, as a mathematical integer.
pub open spec fn pow10(n: nat) -> int
    decreases n,
{
    if n == 0 {
        1
    } else {
        10 * pow10((n - 1) as nat)
    }
}

pub proof fn lemma_pow10_pos(n: nat)
    ensures
        pow10(n) >= 1,
    decreases n,
{
    if n > 0 {
        lemma_pow10_pos((n - 1) as nat);
    }
}

/// The concrete value of `10^18`, the scaling factor of an [`Amount`];
/// callers discharge the range bound of [`Amount::new`] with it.
pub proof fn lemma_pow10_scale()
    ensures
        pow10(AMOUNT_SCALE as nat) == 1_000_000_000_000_000_000,
{
    reveal_with_fuel(pow10, 19);
}

/// Whether a unit count lies within the range kept by the ledger.
pub open spec fn in_units_range(units: int) -> bool {
    -(UNITS_MAX as int) <= units <= UNITS_MAX as int
}

/// A signed decimal amount with exactly [`AMOUNT_SCALE`] fractional digits.
#[derive(Clone, Copy, Debug, PartialEq, Eq, Hash, Structural)]
pub struct Amount {
    units: i128,
}

impl View for Amount {
    type V = int;

    closed spec fn view(&self) -> int {
        self.units as int
    }
}

impl Amount {
    /// The zero amount.
    pub fn zero() -> (r: Amount)
        ensures
            r@ == 0,
    {
        Amount { units: 0 }
    }

    /// Builds the amount `mantissa / 10^scale` for scales within range.
    pub fn new(mantissa: i128, scale: u32) -> (r: Amount)
        requires
            scale <= AMOUNT_SCALE,
            in_units_range(mantissa * pow10((AMOUNT_SCALE - scale) as nat)),
        ensures
            r@ == mantissa * pow10((AMOUNT_SCALE - scale) as nat),
    {
        let mut units: i128 = mantissa;
        let mut i: u32 = scale;
        while i < AMOUNT_SCALE
            invariant
                scale <= i <= AMOUNT_SCALE,
                units == mantissa * pow10((i - scale) as nat),
                in_units_range(mantissa * pow10((AMOUNT_SCALE - scale) as nat)),
            decreases AMOUNT_SCALE - i,
        {
            proof {
                lemma_pow10_step_bound(mantissa as int, (i - scale) as nat, (AMOUNT_SCALE - scale) as nat);
            }
            units = units * 10;
            i = i + 1;
        }
        Amount { units }
    }

    /// Whether this amount is exactly zero.
    pub fn is_zero(self) -> (r: bool)
        ensures
            r <==> self@ == 0,
    {
        self.units == 0
    }

    /// The absolute value.
    pub fn abs(self) -> (r: Amount)
        requires
            self@ > i128::MIN,
        ensures
            r@ == if self@ >= 0 {
                self@
            } else {
                -self@
            },
    {
        if self.units >= 0 {
            self
        } else {
            Amount { units: -self.units }
        }
    }

    /// The raw count of `10^-18` units.
    pub fn inner(self) -> (r: i128)
        ensures
            r == self@,
    {
        self.units
    }

    /// Exact addition.
    pub fn plus(self, other: Amount) -> (r: Amount)
        requires
            i128::MIN <= self@ + other@ <= i128::MAX,
        ensures
            r@ == self@ + other@,
    {
        Amount { units: self.units + other.units }
    }

    /// Exact subtraction.
    pub fn minus(self, other: Amount) -> (r: Amount)
        requires
            i128::MIN <= self@ - other@ <= i128::MAX,
        ensures
            r@ == self@ - other@,
    {
        Amount { units: self.units - other.units }
    }

    /// Whether this amount is strictly below zero.
    pub fn is_negative(self) -> (r: bool)
        ensures
            r <==> self@ < 0,
    {
        self.units < 0
    }

    /// Whether this amount lies within the range the ledger keeps.
    pub fn in_range(self) -> (r: bool)
        ensures
            r <==> in_units_range(self@),
    {
        -UNITS_MAX <= self.units && self.units <= UNITS_MAX
    }
}

impl Default for Amount {
    /// The zero amount.
    fn default() -> (r: Amount)
        ensures
            r@ == 0,
    {
        Amount { units: 0 }
    }
}

/// Scaling a bounded mantissa by one more power of ten stays bounded as long
/// as the full scaling is bounded.
proof fn lemma_pow10_step_bound(m: int, i: nat, k: nat)
    requires
        i < k,
        in_units_range(m * pow10(k)),
    ensures
        i128::MIN <= m * pow10(i) * 10 <= i128::MAX,
        m * pow10(i) * 10 == m * pow10((i + 1) as nat),
{
    assert(m * pow10(i) * 10 == m * (10 * pow10(i))) by (nonlinear_arith);
    assert(pow10((i + 1) as nat) == 10 * pow10(i));
    // |m * pow10(i + 1)| <= |m * pow10(k)| because pow10 only grows.
    lemma_pow10_scale_monotonic(m, 0, (i + 1) as nat);
    lemma_pow10_scale_monotonic(m, (i + 1) as nat, k);
    assert(pow10(0) == 1);
}

/// For exponents `a <= b`, `|m * pow10(a)| <= |m * pow10(b)|`.
proof fn lemma_pow10_scale_monotonic(m: int, a: nat, b: nat)
    requires
        a <= b,
    ensures
        m >= 0 ==> m * pow10(a) <= m * pow10(b),
        m < 0 ==> m * pow10(a) >= m * pow10(b),
    decreases b - a,
{
    if a < b {
        lemma_pow10_scale_monotonic(m, a, (b - 1) as nat);
        lemma_pow10_pos((b - 1) as nat);
        assert(pow10(b) == 10 * pow10((b - 1) as nat));
        assert(m >= 0 ==> m * pow10((b - 1) as nat) <= m * (10 * pow10((b - 1) as nat)))
            by (nonlinear_arith)
            requires
                pow10((b - 1) as nat) >= 1,
        ;
        assert(m < 0 ==> m * pow10((b - 1) as nat) >= m * (10 * pow10((b - 1) as nat)))
            by (nonlinear_arith)
            requires
                pow10((b - 1) as nat) >= 1,
        ;
    }
}

} // verus!
