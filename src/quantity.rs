use vstd::prelude::*;

verus! {

/// Largest quantity a stockpile entry may hold in a well-formed world.
///
/// Banked amounts stay below twice this bound, so that every sum the
/// pipeline forms fits in a `u64`.
pub const MAX_QUANTITY: u64 = 0x4000_0000_0000_0000;

/// An exact non-negative ratio `num / den`.
///
/// A satisfaction fraction in `[0, 1]` has `den > 0` and `num <= den`.
#[derive(Clone, Copy, Debug, PartialEq, Eq, Structural)]
pub struct Fraction {
    pub num: u64,
    pub den: u64,
}

impl Fraction {
    /// A fraction in `[0, 1]`.
    pub open spec fn is_unit(self) -> bool {
        self.den > 0 && self.num <= self.den
    }

    /// The value of the fraction as a pair of integers compared crosswise.
    pub open spec fn same_value(self, other: Fraction) -> bool {
        self.num * other.den == other.num * self.den
    }

    /// No satisfaction at all.
    pub fn zero() -> (r: Fraction)
        ensures
            r == (Fraction { num: 0, den: 1 }),
            r.is_unit(),
    {
        Fraction { num: 0, den: 1 }
    }

    /// Full satisfaction.
    pub fn one() -> (r: Fraction)
        ensures
            r == (Fraction { num: 1, den: 1 }),
            r.is_unit(),
    {
        Fraction { num: 1, den: 1 }
    }

    /// Whether two fractions denote the same rational number.
    pub fn equals(&self, other: &Fraction) -> (r: bool)
        ensures
            r == self.same_value(*other),
    {
        let a = self.num as u128;
        let b = other.den as u128;
        let c = other.num as u128;
        let d = self.den as u128;
        proof {
            assert(a * b <= u64::MAX * u64::MAX) by (nonlinear_arith)
                requires a <= u64::MAX, b <= u64::MAX;
            assert(c * d <= u64::MAX * u64::MAX) by (nonlinear_arith)
                requires c <= u64::MAX, d <= u64::MAX;
        }
        a * b == c * d
    }
}

/// Whether a good with stock `s` and need `n` is fully satisfied this tick:
/// half the stock exceeds the need.
pub open spec fn fully_satisfied(s: u64, n: u64) -> bool {
    s > 2 * n
}

/// The stock left after one consumption step: `s - n` when fully
/// satisfied, otherwise the stock halved (rounding down to whole units).
pub open spec fn stock_after(s: u64, n: u64) -> u64 {
    if fully_satisfied(s, n) {
        (s - n) as u64
    } else {
        s / 2
    }
}

/// The amount banked by one consumption step: the need when fully
/// satisfied, otherwise the halved stock that remains.
pub open spec fn banked(s: u64, n: u64) -> u64 {
    if fully_satisfied(s, n) {
        n
    } else {
        s / 2
    }
}

/// The satisfaction recorded by one consumption step: one when fully
/// satisfied, otherwise the remaining (halved) stock divided by the need.
pub open spec fn fill_after(s: u64, n: u64) -> Fraction {
    if fully_satisfied(s, n) {
        Fraction { num: 1, den: 1 }
    } else {
        Fraction { num: s / 2, den: n }
    }
}

/// Applies the rationing rule to one good: returns the new stock, the
/// amount to bank and the satisfaction fraction.
///
/// The stock is cut first; in the ration case the cut stock is what is
/// banked and what the fraction is measured by.
pub fn ration(s: u64, n: u64) -> (r: (u64, u64, Fraction))
    requires
        n > 0,
    ensures
        r.0 == stock_after(s, n),
        r.1 == banked(s, n),
        r.2 == fill_after(s, n),
        r.0 <= s,
        r.1 <= s,
        r.2.is_unit(),
{
    if s / 2 > n || (s / 2 == n && s % 2 == 1) {
        (s - n, n, Fraction::one())
    } else {
        let kept = s / 2;
        (kept, kept, Fraction { num: kept, den: n })
    }
}

} // verus!
