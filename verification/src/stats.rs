//! Exact statistics of a rectangle of samples: mean and variance as
//! fractions of integers, and the tests that the classifiers make on them.

use vstd::prelude::*;

verus! {

/// A non-negative fraction `num / den`, kept unreduced.
///
/// A fraction with `den == 0` stands for a statistic of an empty area: it is
/// neither above nor below any bound.
#[derive(Debug, Clone, Copy, PartialEq, Eq, Structural)]
pub struct Ratio {
    /// Numerator.
    pub num: u128,
    /// Denominator.
    pub den: u128,
}

/// Largest numerator and denominator for which comparisons are offered.
pub const RATIO_LIMIT: u128 = 0x1_0000_0000_0000_0000_0000_0000;

impl Ratio {
    /// Numerator and denominator are small enough to be cross-multiplied
    /// with 32-bit bounds.
    pub open spec fn wf(self) -> bool {
        self.num < RATIO_LIMIT && self.den < RATIO_LIMIT
    }

    /// `self > p / q`, by cross-multiplication.
    pub open spec fn above(self, p: int, q: int) -> bool {
        self.num * q > p * self.den
    }

    /// `self < p / q`, by cross-multiplication.
    pub open spec fn under(self, p: int, q: int) -> bool {
        self.num * q < p * self.den
    }

    /// The integer part of the fraction; zero for an empty area.
    pub open spec fn whole(self) -> int {
        if self.den == 0 {
            0
        } else {
            self.num as int / self.den as int
        }
    }

    /// Tells whether the fraction is greater than `p / q`.
    pub fn exceeds(&self, p: u32, q: u32) -> (r: bool)
        requires
            self.wf(),
        ensures
            r == self.above(p as int, q as int),
    {
        proof {
            lemma_product_fits(self.num as int, q as int);
            lemma_product_fits(self.den as int, p as int);
        }
        self.num * (q as u128) > (p as u128) * self.den
    }

    /// Tells whether the fraction is less than `p / q`.
    pub fn below(&self, p: u32, q: u32) -> (r: bool)
        requires
            self.wf(),
        ensures
            r == self.under(p as int, q as int),
    {
        proof {
            lemma_product_fits(self.num as int, q as int);
            lemma_product_fits(self.den as int, p as int);
        }
        self.num * (q as u128) < (p as u128) * self.den
    }

    /// Computes the integer part of the fraction.
    pub fn floor(&self) -> (r: u128)
        ensures
            r == self.whole(),
    {
        if self.den == 0 {
            0
        } else {
            self.num / self.den
        }
    }
}

/// A product of a 96-bit and a 32-bit factor fits in 128 bits.
pub proof fn lemma_product_fits(a: int, b: int)
    requires
        0 <= a < RATIO_LIMIT,
        0 <= b <= u32::MAX,
    ensures
        0 <= a * b <= u128::MAX,
        a * b == b * a,
{
    assert(0 <= a * b <= 0x1_0000_0000_0000_0000_0000_0000 * 0xffff_ffff) by (nonlinear_arith)
        requires
            0 <= a <= 0x1_0000_0000_0000_0000_0000_0000,
            0 <= b <= 0xffff_ffff,
    ;
    assert(a * b == b * a) by (nonlinear_arith);
}

/// The three sums from which the statistics of an area are computed.
#[derive(Debug, Clone, Copy, PartialEq, Eq, Structural)]
pub struct AreaStats {
    /// Number of samples in the area.
    pub count: u64,
    /// Sum of the samples.
    pub sum: u64,
    /// Sum of the squares of the samples.
    pub sum_sq: u64,
}

/// `count² ·` variance of samples with the given sums, never below zero.
pub open spec fn spread(count: int, sum: int, sum_sq: int) -> int {
    if count * sum_sq >= sum * sum {
        count * sum_sq - sum * sum
    } else {
        0
    }
}

impl AreaStats {
    /// The sums are those of at most `u32::MAX` eight-bit samples.
    pub open spec fn wf(self) -> bool {
        &&& self.count <= u32::MAX
        &&& self.sum <= 255 * self.count
        &&& self.sum_sq <= 65025 * self.count
    }

    /// The mean as a fraction of full scale: `sum / (255 * count)`.
    pub open spec fn mean_ratio(self) -> Ratio {
        Ratio { num: self.sum as u128, den: (255 * self.count) as u128 }
    }

    /// The mean in intensity levels: `sum / count`.
    pub open spec fn level_ratio(self) -> Ratio {
        Ratio { num: self.sum as u128, den: self.count as u128 }
    }

    /// The variance in squared intensity levels:
    /// `(sum_sq - sum² / count) / count`, never below zero.
    pub open spec fn variance_ratio(self) -> Ratio {
        Ratio {
            num: spread(self.count as int, self.sum as int, self.sum_sq as int) as u128,
            den: (self.count * self.count) as u128,
        }
    }

    /// The sums stay within the ranges in which the fractions are offered.
    pub proof fn lemma_ranges(self)
        requires
            self.wf(),
        ensures
            0 <= 255 * self.count < 0x1_0000_0000_00,
            0 <= self.count * self.count < 0x1_0000_0000_0000_0000,
            0 <= self.count * self.sum_sq < 0x1_0000_0000_0000_0000_0000,
            0 <= self.sum * self.sum < 0x1_0000_0000_0000_0000_0000,
            0 <= spread(self.count as int, self.sum as int, self.sum_sq as int)
                <= 65025 * (self.count * self.count),
            self.mean_ratio().wf(),
            self.level_ratio().wf(),
            self.variance_ratio().wf(),
    {
        let c = self.count as int;
        let s = self.sum as int;
        let q = self.sum_sq as int;
        assert(0 <= c * c <= 0xffff_ffff * 0xffff_ffff) by (nonlinear_arith)
            requires
                0 <= c <= 0xffff_ffff,
        ;
        assert(0 <= c * q <= 65025 * (c * c)) by (nonlinear_arith)
            requires
                0 <= c,
                0 <= q <= 65025 * c,
        ;
        assert(0 <= s * s <= 1199499532834403097050625) by (nonlinear_arith)
            requires
                0 <= s <= 1095216660225,
        ;
    }

    /// Computes the mean as a fraction of full scale.
    pub fn mean(&self) -> (r: Ratio)
        requires
            self.wf(),
        ensures
            r == self.mean_ratio(),
            r.wf(),
    {
        proof {
            self.lemma_ranges();
        }
        Ratio { num: self.sum as u128, den: 255 * (self.count as u128) }
    }

    /// Computes the mean in intensity levels.
    pub fn level(&self) -> (r: Ratio)
        requires
            self.wf(),
        ensures
            r == self.level_ratio(),
            r.wf(),
    {
        proof {
            self.lemma_ranges();
        }
        Ratio { num: self.sum as u128, den: self.count as u128 }
    }

    /// Computes the variance in squared intensity levels.
    pub fn variance(&self) -> (r: Ratio)
        requires
            self.wf(),
        ensures
            r == self.variance_ratio(),
            r.wf(),
    {
        proof {
            self.lemma_ranges();
        }
        let a: u128 = (self.count as u128) * (self.sum_sq as u128);
        let b: u128 = (self.sum as u128) * (self.sum as u128);
        let num: u128 = if a >= b {
            a - b
        } else {
            0
        };
        Ratio { num, den: (self.count as u128) * (self.count as u128) }
    }

    /// The mean in whole intensity levels, rounded down; zero for an empty
    /// area.
    pub open spec fn mean_level(self) -> int {
        self.level_ratio().whole()
    }

    /// The variance in whole squared intensity levels, rounded down; zero for
    /// an empty area.
    pub open spec fn variance_level(self) -> int {
        self.variance_ratio().whole()
    }

    /// Computes the pair `(mean_level, variance_level)`.
    pub fn levels(&self) -> (r: (u32, u32))
        requires
            self.wf(),
        ensures
            r.0 == self.mean_level(),
            r.1 == self.variance_level(),
            r.0 <= 255,
            r.1 <= 65025,
    {
        proof {
            self.lemma_ranges();
        }
        let m: u128 = self.level().floor();
        let v: u128 = self.variance().floor();
        proof {
            let c = self.count as int;
            if c > 0 {
                assert(self.sum as int / c <= 255) by (nonlinear_arith)
                    requires
                        0 < c,
                        0 <= self.sum as int <= 255 * c,
                ;
                let sp = spread(c, self.sum as int, self.sum_sq as int);
                assert(c * c > 0) by (nonlinear_arith)
                    requires
                        c > 0,
                ;
                assert(sp / (c * c) <= 65025) by (nonlinear_arith)
                    requires
                        0 < c * c,
                        0 <= sp <= 65025 * (c * c),
                ;
            } else {
                assert(c * c == 0) by (nonlinear_arith)
                    requires
                        c == 0,
                ;
            }
        }
        (m as u32, v as u32)
    }

    /// Tells whether the mean is greater than `percent / 100` of full scale.
    pub fn mean_exceeds(&self, percent: u8) -> (r: bool)
        requires
            self.wf(),
        ensures
            r == self.mean_ratio().above(percent as int, 100),
    {
        self.mean().exceeds(percent as u32, 100)
    }

    /// Tells whether the mean is less than `percent / 100` of full scale.
    pub fn mean_below(&self, percent: u8) -> (r: bool)
        requires
            self.wf(),
        ensures
            r == self.mean_ratio().under(percent as int, 100),
    {
        self.mean().below(percent as u32, 100)
    }

    /// The standard deviation is less than `tenths / 10` of full scale:
    /// the variance is less than `(255 * tenths / 10)²`.
    pub open spec fn deviation_under(self, tenths: int) -> bool {
        self.variance_ratio().under(65025 * tenths * tenths, 100)
    }

    /// Tells whether the standard deviation is less than `tenths / 10` of
    /// full scale.
    pub fn deviation_below(&self, tenths: u8) -> (r: bool)
        requires
            self.wf(),
        ensures
            r == self.deviation_under(tenths as int),
    {
        let t: u32 = tenths as u32;
        assert(65025 * t * t <= 65025 * 255 * 255) by (nonlinear_arith)
            requires
                0 <= t <= 255,
        ;
        self.variance().below(65025 * t * t, 100)
    }
}

} // verus!
