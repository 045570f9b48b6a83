//! Exact rational rates in [0, 1].
//!
//! A behaviour's coefficient is held as a fraction `num / den` so that the
//! per-tick move amount `round(rate * quantity)` is an exact integer
//! computation (round half up, which for non-negative values agrees with
//! rounding half away from zero).

use vstd::prelude::*;

verus! {

/// The largest denominator a rate may carry; keeps intermediate products
/// within 128 bits when scaling 64-bit quantities.
pub const MAX_DENOMINATOR: u64 = 0x1_0000_0000;

/// A rate in [0, 1], held exactly as the fraction `num / den`.
#[derive(Clone, Copy, Debug)]
pub struct Rate {
    num: u64,
    den: u64,
}

impl Rate {
    /// The numerator, as a mathematical integer.
    pub closed spec fn num(&self) -> int {
        self.num as int
    }

    /// The denominator, as a mathematical integer.
    pub closed spec fn den(&self) -> int {
        self.den as int
    }

    /// A well-formed rate has a positive, bounded denominator and lies in [0, 1].
    pub open spec fn wf(&self) -> bool {
        0 < self.den() <= MAX_DENOMINATOR && self.num() <= self.den()
    }

    /// `round(num * q / den)`: the nearest integer to `q` scaled by this rate,
    /// halves rounded up.
    pub open spec fn round_scaled(&self, q: int) -> int {
        (2 * self.num() * q + self.den()) / (2 * self.den())
    }

    /// Builds the rate `num / den`.
    pub fn new(num: u64, den: u64) -> (r: Rate)
        requires
            0 < den <= MAX_DENOMINATOR,
            num <= den,
        ensures
            r.wf(),
            r.num() == num,
            r.den() == den,
    {
        Rate { num, den }
    }

    /// Scales `q` by this rate and rounds to the nearest integer (halves up).
    /// The result never exceeds `q`, since the rate is at most 1.
    pub fn round_mul(&self, q: u64) -> (r: u64)
        requires
            self.wf(),
        ensures
            r == self.round_scaled(q as int),
            r <= q,
    {
        proof {
            lemma_round_scaled_bounds(*self, q as int);
        }
        let n = self.num as u128;
        let d = self.den as u128;
        let qq = q as u128;
        assert(2 * n * qq + d <= u128::MAX && 2 * d <= u128::MAX) by (nonlinear_arith)
            requires
                n <= 0x1_0000_0000,
                d <= 0x1_0000_0000,
                qq <= u64::MAX,
        ;
        let r = (2 * n * qq + d) / (2 * d);
        r as u64
    }
}

/// A well-formed rate scales a non-negative quantity to a result between 0
/// and the quantity itself.
pub proof fn lemma_round_scaled_bounds(rate: Rate, q: int)
    requires
        rate.wf(),
        q >= 0,
    ensures
        0 <= rate.round_scaled(q) <= q,
{
    let n = rate.num();
    let d = rate.den();
    assert(0 <= (2 * n * q + d) / (2 * d) <= q) by (nonlinear_arith)
        requires
            0 < d,
            0 <= n <= d,
            q >= 0,
    ;
}

} // verus!
