//! Brightness levels.
//!
//! A level is a number of per cent. It is kept as the 64 bits of an IEEE 754
//! double, the form in which the program around the library computes with it.
use vstd::arithmetic::div_mod::lemma_basic_div;
use vstd::arithmetic::power2::{
    lemma2_to64, lemma2_to64_rest, lemma_pow2_adds, lemma_pow2_pos, lemma_pow2_strictly_increases, pow2,
};
use vstd::bits::lemma_u64_shr_is_div;
use vstd::prelude::*;

verus! {

/// The bits of a hundred per cent.
pub const HUNDRED_BITS: u64 = 0x4059_0000_0000_0000;

/// The bits of the negative zero.
pub const NEGATIVE_ZERO_BITS: u64 = 0x8000_0000_0000_0000;

/// A brightness level in per cent.
#[derive(Clone, Copy, Debug, PartialEq, Eq, Structural)]
pub struct Level {
    pub bits: u64,
}

/// The biased exponent field of a double.
pub open spec fn exponent_field(bits: u64) -> nat {
    ((bits / 0x10_0000_0000_0000) % 0x800) as nat
}

/// The fraction field of a double.
pub open spec fn fraction_field(bits: u64) -> nat {
    (bits % 0x10_0000_0000_0000) as nat
}

/// The integer that a double multiplies with a power of two.
pub open spec fn significand(bits: u64) -> nat {
    if exponent_field(bits) == 0 {
        fraction_field(bits)
    } else {
        fraction_field(bits) + 0x10_0000_0000_0000
    }
}

/// The exponent of that power of two, counted from -1075.
pub open spec fn scale(bits: u64) -> nat {
    if exponent_field(bits) == 0 {
        1
    } else {
        exponent_field(bits)
    }
}

impl Level {
    /// Whether the level is below zero or the negative zero.
    pub open spec fn is_negative(self) -> bool {
        self.bits >= NEGATIVE_ZERO_BITS
    }

    /// Whether the bits stand for no number.
    pub open spec fn is_nan(self) -> bool {
        exponent_field(self.bits) == 0x7ff && fraction_field(self.bits) != 0
    }

    /// The size of the level, without its sign, rounded down to a whole number.
    /// An infinite level counts as the power of two that follows the doubles.
    pub open spec fn whole_size(self) -> nat {
        if scale(self.bits) >= 1075 {
            significand(self.bits) * pow2((scale(self.bits) - 1075) as nat)
        } else {
            significand(self.bits) / pow2((1075 - scale(self.bits)) as nat)
        }
    }

    /// The level rounded towards zero, brought into the range from `lowest` to
    /// `highest`; zero where the bits stand for no number.
    pub open spec fn truncated(self, lowest: int, highest: int) -> int {
        if self.is_nan() {
            0
        } else {
            let whole = if self.is_negative() {
                -self.whole_size()
            } else {
                self.whole_size() as int
            };
            if whole < lowest {
                lowest
            } else if whole > highest {
                highest
            } else {
                whole
            }
        }
    }

    /// Whether the level is exactly the given whole number of per cent.
    pub open spec fn is_exactly(self, percent: nat) -> bool {
        &&& !self.is_nan()
        &&& !self.is_negative()
        &&& significand(self.bits) * pow2(scale(self.bits)) == percent * pow2(1075)
    }

    /// Whether the level is between 0 and 100, both included.
    pub open spec fn in_range(self) -> bool {
        &&& !self.is_nan()
        &&& self.is_negative() ==> significand(self.bits) == 0
        &&& significand(self.bits) * pow2(scale(self.bits)) <= 100 * pow2(1075)
    }
}

/// `pow2` does not shrink when its exponent grows.
proof fn lemma_pow2_grows(low: nat, high: nat)
    requires
        low <= high,
    ensures
        0 < pow2(low) <= pow2(high),
{
    lemma_pow2_pos(low);
    if low < high {
        lemma_pow2_strictly_increases(low, high);
    }
}

/// The powers of two that the proofs about levels count with.
proof fn lemma_small_powers()
    ensures
        pow2(0) == 1,
        pow2(6) == 64,
        pow2(7) == 128,
        pow2(46) == 0x4000_0000_0000,
        pow2(52) == 0x10_0000_0000_0000,
        pow2(53) == 0x20_0000_0000_0000,
{
    lemma2_to64();
    lemma2_to64_rest();
}

impl Level {
    /// The level rounded towards zero and brought into a range that holds zero.
    pub fn truncate(&self, lowest: i32, highest: i32) -> (whole: i32)
        requires
            lowest <= 0 <= highest,
        ensures
            whole == self.truncated(lowest as int, highest as int),
    {
        let exponent: u64 = (self.bits / 0x10_0000_0000_0000) % 0x800;
        let fraction: u64 = self.bits % 0x10_0000_0000_0000;
        if exponent == 0x7ff && fraction != 0 {
            return 0;
        }
        let significand: u64 = if exponent == 0 {
            fraction
        } else {
            fraction + 0x10_0000_0000_0000
        };
        let scale: u64 = if exponent == 0 {
            1
        } else {
            exponent
        };
        let size: u64 = if scale >= 1075 {
            proof {
                let factor = pow2((scale - 1075) as nat);
                lemma_pow2_pos((scale - 1075) as nat);
                assert(self.whole_size() == significand * factor);
                assert(significand * factor >= significand) by (nonlinear_arith)
                    requires
                        factor >= 1,
                ;
            }
            0x10_0000_0000_0000
        } else {
            let shift: u64 = 1075 - scale;
            if shift >= 53 {
                proof {
                    lemma_small_powers();
                    lemma_pow2_grows(53, shift as nat);
                    lemma_basic_div(significand as int, pow2(shift as nat) as int);
                }
                0
            } else {
                proof {
                    lemma_u64_shr_is_div(significand, shift);
                }
                let size: u64 = significand >> shift;
                proof {
                    lemma_pow2_pos(shift as nat);
                    assert(size <= significand) by {
                        vstd::arithmetic::div_mod::lemma_div_is_ordered_by_denominator(
                            significand as int, 1, pow2(shift as nat) as int);
                    }
                }
                size
            }
        };
        if self.bits >= NEGATIVE_ZERO_BITS {
            let bound: u64 = (-(lowest as i64)) as u64;
            if size > bound {
                lowest
            } else {
                (-(size as i64)) as i32
            }
        } else if size > highest as u64 {
            highest
        } else {
            size as i32
        }
    }

    /// The level as a signed number of per cent.
    pub fn whole_percent(&self) -> (whole: i16)
        ensures
            whole == self.truncated(-32768, 32767),
    {
        self.truncate(-32768, 32767) as i16
    }

    /// The level as an unsigned number of per cent.
    pub fn unsigned_percent(&self) -> (whole: u8)
        ensures
            whole == self.truncated(0, 255),
    {
        self.truncate(0, 255) as u8
    }

    /// Whether the level is a brightness that a display can have.
    pub fn is_valid(&self) -> (valid: bool)
        ensures
            valid == self.in_range(),
    {
        proof {
            self.lemma_in_range_bits();
        }
        self.bits <= HUNDRED_BITS || self.bits == NEGATIVE_ZERO_BITS
    }

    /// Doubles that are not negative are ordered as their bits are.
    proof fn lemma_in_range_bits(self)
        ensures
            self.in_range() <==> (self.bits <= HUNDRED_BITS || self.bits == NEGATIVE_ZERO_BITS),
    {
        let bits = self.bits;
        let e = exponent_field(bits);
        let f = fraction_field(bits);
        let m = significand(bits);
        let s = scale(bits);
        lemma_small_powers();
        lemma_pow2_pos(1075);
        lemma_pow2_pos(s);
        if self.is_negative() {
            if m == 0 {
                assert(m * pow2(s) == 0) by (nonlinear_arith)
                    requires
                        m == 0,
                ;
                assert(f == 0 && e == 0);
                assert(bits == NEGATIVE_ZERO_BITS);
            } else {
                assert(bits != NEGATIVE_ZERO_BITS);
            }
        } else {
            assert(bits == e * 0x10_0000_0000_0000 + f);
            if s < 1029 {
                lemma_pow2_grows(s, 1028);
                lemma_pow2_adds(53, 1028);
                lemma_pow2_adds(6, 1075);
                assert(m * pow2(s) <= pow2(53) * pow2(1028)) by (nonlinear_arith)
                    requires
                        m <= pow2(53),
                        pow2(s) <= pow2(1028),
                ;
            } else if s == 1029 {
                lemma_pow2_adds(46, 1029);
                lemma_pow2_pos(1029);
                let p = pow2(1029);
                assert(100 * pow2(1075) == (100 * 0x4000_0000_0000) * p) by (nonlinear_arith)
                    requires
                        pow2(1075) == 0x4000_0000_0000 * p,
                ;
                assert((m * p <= (100 * 0x4000_0000_0000) * p) <==> m <= 100 * 0x4000_0000_0000)
                    by (nonlinear_arith)
                    requires
                        p > 0,
                ;
            } else {
                lemma_pow2_grows(1030, s);
                lemma_pow2_adds(52, 1030);
                lemma_pow2_adds(7, 1075);
                assert(m * pow2(s) >= pow2(52) * pow2(1030)) by (nonlinear_arith)
                    requires
                        m >= pow2(52),
                        pow2(s) >= pow2(1030),
                ;
            }
        }
    }
}

/// The whole number of per cent of a level is its whole part: the level is not below
/// it, and below the next one.
pub proof fn law_whole_part(level: Level)
    requires
        level.in_range(),
    ensures
        ({
            let whole = level.truncated(-32768, 32767);
            &&& 0 <= whole <= 100
            &&& whole == level.truncated(0, 255)
            &&& whole * pow2(1075) <= significand(level.bits) * pow2(scale(level.bits))
            &&& significand(level.bits) * pow2(scale(level.bits)) < (whole + 1) * pow2(1075)
        }),
{
    level.lemma_in_range_bits();
    let bits = level.bits;
    let m = significand(bits);
    let s = scale(bits);
    lemma_pow2_pos(1075);
    lemma_pow2_pos(s);
    if level.is_negative() {
        lemma_pow2_pos((1075 - s) as nat);
        lemma_basic_div(0, pow2((1075 - s) as nat) as int);
        assert(m * pow2(s) == 0) by (nonlinear_arith)
            requires
                m == 0,
        ;
        assert(0 * pow2(1075) == 0 && 1 * pow2(1075) == pow2(1075)) by (nonlinear_arith);
    } else {
        assert(s < 1075) by {
            assert(bits <= HUNDRED_BITS);
        }
        let shift = (1075 - s) as nat;
        let d = pow2(shift);
        let p = pow2(s);
        lemma_pow2_pos(shift);
        lemma_pow2_adds(shift, s);
        let q = m / d;
        vstd::arithmetic::div_mod::lemma_fundamental_div_mod(m as int, d as int);
        vstd::arithmetic::div_mod::lemma_mod_bound(m as int, d as int);
        assert(d * q <= m < d * q + d);
        assert(q * pow2(1075) <= m * p) by (nonlinear_arith)
            requires
                d * q <= m,
                d * p == pow2(1075),
                p > 0,
        ;
        assert(m * p < (q + 1) * pow2(1075)) by (nonlinear_arith)
            requires
                m < d * q + d,
                d * p == pow2(1075),
                p > 0,
        ;
        assert(q <= 100) by (nonlinear_arith)
            requires
                q * pow2(1075) <= m * p,
                m * p <= 100 * pow2(1075),
                pow2(1075) > 0,
        ;
        assert(level.whole_size() == q);
    }
}

/// The place of the highest binary digit of a number below 256 that is not zero.
pub open spec fn top_digit(n: u8) -> nat {
    if n >= 128 {
        7
    } else if n >= 64 {
        6
    } else if n >= 32 {
        5
    } else if n >= 16 {
        4
    } else if n >= 8 {
        3
    } else if n >= 4 {
        2
    } else if n >= 2 {
        1
    } else {
        0
    }
}

/// The level that is a whole number of per cent.
pub open spec fn percent_level(percent: u8) -> Level {
    if percent == 0 {
        Level { bits: 0 }
    } else {
        Level {
            bits: ((1022 + top_digit(percent)) * 0x10_0000_0000_0000 + percent * pow2(
                (52 - top_digit(percent)) as nat,
            )) as u64,
        }
    }
}

/// The powers of two that a fraction field is shifted by.
proof fn lemma_field_powers()
    ensures
        pow2(45) == 0x2000_0000_0000,
        pow2(46) == 0x4000_0000_0000,
        pow2(47) == 0x8000_0000_0000,
        pow2(48) == 0x1_0000_0000_0000,
        pow2(49) == 0x2_0000_0000_0000,
        pow2(50) == 0x4_0000_0000_0000,
        pow2(51) == 0x8_0000_0000_0000,
        pow2(52) == 0x10_0000_0000_0000,
{
    lemma2_to64();
    lemma2_to64_rest();
}

/// Shifting a number so that its highest digit becomes the hidden digit of a
/// double makes it a significand.
proof fn lemma_shifted(n: u8)
    requires
        n > 0,
    ensures
        0x10_0000_0000_0000 <= n * pow2((52 - top_digit(n)) as nat) < 0x20_0000_0000_0000,
{
    lemma_field_powers();
    let factor = pow2((52 - top_digit(n)) as nat);
    let low = pow2(top_digit(n));
    lemma2_to64();
    assert(low <= n < 2 * low);
    lemma_pow2_adds(top_digit(n), (52 - top_digit(n)) as nat);
    assert(low * factor <= n * factor < 2 * (low * factor)) by (nonlinear_arith)
        requires
            low <= n < 2 * low,
            factor > 0,
    ;
}

/// The level made for a whole number of per cent is exactly that number, and
/// rounding it towards zero gives the number back.
pub proof fn law_percent_level_exact(percent: u8)
    ensures
        percent_level(percent).is_exactly(percent as nat),
        percent_level(percent).truncated(0, 255) == percent,
        percent_level(percent).truncated(-32768, 32767) == percent,
        percent_level(percent).in_range() <==> percent <= 100,
{
    let level = percent_level(percent);
    lemma_field_powers();
    lemma_pow2_pos(1075);
    if percent == 0 {
        let p = pow2(1075);
        lemma_pow2_pos(1);
        lemma_pow2_pos(1074);
        assert(0 * pow2(1) == 0 && 0 * p == 0) by (nonlinear_arith);
        lemma_basic_div(0, pow2(1074) as int);
    } else {
        let k = top_digit(percent);
        let factor = pow2((52 - k) as nat);
        let m = significand(level.bits);
        let s = scale(level.bits);
        let x = percent * factor;
        assert(0x10_0000_0000_0000 <= x < 0x20_0000_0000_0000) by {
            lemma_shifted(percent);
        }
        assert(exponent_field(level.bits) == 1023 + k);
        assert(m == percent * factor);
        assert(s == 1023 + k);
        lemma_pow2_adds((52 - k) as nat, s);
        assert(m * pow2(s) == percent * pow2(1075)) by (nonlinear_arith)
            requires
                m == percent * factor,
                factor * pow2(s) == pow2(1075),
        ;
        lemma_pow2_pos((52 - k) as nat);
        vstd::arithmetic::div_mod::lemma_div_multiples_vanish(percent as int, factor as int);
        assert(m == factor * percent) by (nonlinear_arith)
            requires
                m == percent * factor,
        ;
        assert(level.whole_size() == percent);
        let p = pow2(1075);
        assert((percent * p <= 100 * p) <==> percent <= 100) by (nonlinear_arith)
            requires
                p > 0,
        ;
    }
}

impl Level {
    /// The level that is a whole number of per cent.
    pub fn from_percent(percent: u8) -> (level: Level)
        ensures
            level == percent_level(percent),
            level.is_exactly(percent as nat),
    {
        proof {
            lemma_field_powers();
            law_percent_level_exact(percent);
        }
        let n: u64 = percent as u64;
        if percent == 0 {
            Level { bits: 0 }
        } else if percent >= 128 {
            Level { bits: 1029 * 0x10_0000_0000_0000 + n * 0x2000_0000_0000 }
        } else if percent >= 64 {
            Level { bits: 1028 * 0x10_0000_0000_0000 + n * 0x4000_0000_0000 }
        } else if percent >= 32 {
            Level { bits: 1027 * 0x10_0000_0000_0000 + n * 0x8000_0000_0000 }
        } else if percent >= 16 {
            Level { bits: 1026 * 0x10_0000_0000_0000 + n * 0x1_0000_0000_0000 }
        } else if percent >= 8 {
            Level { bits: 1025 * 0x10_0000_0000_0000 + n * 0x2_0000_0000_0000 }
        } else if percent >= 4 {
            Level { bits: 1024 * 0x10_0000_0000_0000 + n * 0x4_0000_0000_0000 }
        } else if percent >= 2 {
            Level { bits: 1023 * 0x10_0000_0000_0000 + n * 0x8_0000_0000_0000 }
        } else {
            Level { bits: 1022 * 0x10_0000_0000_0000 + n * 0x10_0000_0000_0000 }
        }
    }
}

/// A brightness that a display can have is a number, not below zero and not above a
/// hundred, and every such number is one.
pub proof fn law_range_is_up_to_a_hundred(level: Level)
    ensures
        level.in_range() <==> !(exponent_field(level.bits) == 0x7ff && fraction_field(level.bits)
            != 0) && (level.bits < 0x8000_0000_0000_0000 || (exponent_field(level.bits) == 0
            && fraction_field(level.bits) == 0)) && significand(level.bits) * pow2(
            scale(level.bits),
        ) <= 100 * pow2(1075),
{
}

/// Of two levels that are not negative, the one with the smaller bits is a brightness that
/// a display can have if the other is.
pub proof fn law_smaller_bits_stay_in_range(lower: Level, higher: Level)
    requires
        lower.bits <= higher.bits < 0x8000_0000_0000_0000,
        higher.in_range(),
    ensures
        lower.in_range(),
{
    lower.lemma_in_range_bits();
    higher.lemma_in_range_bits();
}

} // verus!
