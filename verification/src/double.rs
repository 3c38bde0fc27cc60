//! Double-precision numbers held by their IEEE 754 bit pattern.
//!
//! Status reports carry averages and deviations in binary64. The policy only
//! ever orders such a number against a threshold and asks whether it is a
//! number at all. Both questions are answered on the bit pattern: bit 63 is
//! the sign; the eleven bits below it are the exponent field; the 52 bits
//! below those are the fraction.
//!
//! What a pattern stands for is stated as a whole number: the number encoded,
//! times two to the power 1074. With the exponent field `e` and the fraction
//! `f`, that is `f` where `e` is 0, and `(2^52 + f) * 2^(e - 1)` otherwise,
//! negated under a set sign bit. An exponent field of all ones encodes no
//! finite number: with a fraction of zero an infinity, which the same formula
//! places beyond every finite number, and with any other fraction a NaN.

use vstd::prelude::*;
use vstd::arithmetic::div_mod::{
    lemma_div_pos_is_pos, lemma_fundamental_div_mod, lemma_fundamental_div_mod_converse,
};
use vstd::arithmetic::power2::{
    lemma2_to64, lemma2_to64_rest, lemma_pow2_adds, lemma_pow2_pos, lemma_pow2_unfold, pow2,
};
use vstd::string::StringExecFns;

verus! {

/// The bit that carries the sign.
pub const SIGN_BIT: u64 = 0x8000_0000_0000_0000;

/// The magnitude of both infinities; every larger magnitude is a NaN.
pub const INFINITY_MAGNITUDE: u64 = 0x7ff0_0000_0000_0000;

/// How many fractions there are: two to the power 52.
pub const FRACTIONS: u64 = 0x10_0000_0000_0000;

/// The bits of the NaN that stands for a mean or a deviation that was not
/// reported as a number.
pub const NAN: u64 = 0x7ff8_0000_0000_0000;

/// A binary64 value, stored as its 64 bits.
#[derive(Clone, Copy, Debug, PartialEq, Eq, Structural)]
pub struct Double {
    pub bits: u64,
}

/// What the magnitude `m` of a pattern stands for, times two to the power
/// 1074: with `e = m / 2^52` and `f = m % 2^52`, `f` where `e` is 0 and
/// `(2^52 + f) * 2^(e - 1)` otherwise.
pub open spec fn scale(m: int) -> int {
    let e = m / (FRACTIONS as int);
    let f = m % (FRACTIONS as int);
    if e <= 0 {
        f
    } else {
        (FRACTIONS + f) * pow2((e - 1) as nat)
    }
}

impl Double {
    /// The 63 bits below the sign, as a number.
    pub open spec fn magnitude(self) -> int {
        if self.bits >= SIGN_BIT {
            self.bits - SIGN_BIT
        } else {
            self.bits as int
        }
    }

    /// Whether the sign bit is set.
    pub open spec fn is_negative(self) -> bool {
        self.bits >= SIGN_BIT
    }

    /// Whether the pattern encodes no number.
    pub open spec fn is_nan(self) -> bool {
        self.magnitude() > INFINITY_MAGNITUDE
    }

    /// The number encoded, times two to the power 1074. It is a whole number
    /// for every pattern; for an infinity it lies beyond what any finite
    /// pattern gives; for a NaN it means nothing.
    pub open spec fn scaled(self) -> int {
        if self.is_negative() {
            -scale(self.magnitude())
        } else {
            scale(self.magnitude())
        }
    }

    /// `self < other` on the encoded numbers: false as soon as one side is
    /// NaN.
    pub open spec fn lt(self, other: Double) -> bool {
        !self.is_nan() && !other.is_nan() && self.scaled() < other.scaled()
    }

    /// `self <= other` on the encoded numbers: false as soon as one side is
    /// NaN.
    pub open spec fn le(self, other: Double) -> bool {
        !self.is_nan() && !other.is_nan() && self.scaled() <= other.scaled()
    }

    /// Whether the value is a number, and that number is at most `n`.
    pub open spec fn at_most_whole(self, n: int) -> bool {
        !self.is_nan() && self.scaled() <= n * pow2(1074)
    }

    /// Whether the value is a number, and that number is at least `n`.
    pub open spec fn at_least_whole(self, n: int) -> bool {
        !self.is_nan() && self.scaled() >= n * pow2(1074)
    }

    /// Whether the value is a number, and that number lies strictly between
    /// `low` and `high`.
    pub open spec fn between_wholes(self, low: int, high: int) -> bool {
        !self.is_nan() && low * pow2(1074) < self.scaled() < high * pow2(1074)
    }

    /// An integer that orders the patterns as the numbers they encode are
    /// ordered: the magnitude, negated under a set sign bit.
    pub open spec fn rank(self) -> int {
        if self.is_negative() {
            -self.magnitude()
        } else {
            self.magnitude()
        }
    }

    /// The value with the given bit pattern.
    pub fn from_bits(bits: u64) -> (d: Double)
        ensures
            d.bits == bits,
    {
        Double { bits }
    }

    /// Tells whether a text is what the forwarder reports in place of a
    /// number where there is none: `nan` or `-nan`.
    pub fn nan_text(text: &str) -> (r: bool)
        ensures
            r == (text@ == "nan"@ || text@ == "-nan"@),
    {
        let text = String::from_str(text);
        text == String::from_str("nan") || text == String::from_str("-nan")
    }

    /// Tells whether the value is a NaN.
    pub fn nan(&self) -> (r: bool)
        ensures
            r == self.is_nan(),
    {
        if self.bits >= SIGN_BIT {
            self.bits - SIGN_BIT > INFINITY_MAGNITUDE
        } else {
            self.bits > INFINITY_MAGNITUDE
        }
    }

    fn ranked(&self) -> (k: i128)
        ensures
            k == self.rank(),
    {
        if self.bits >= SIGN_BIT {
            let m: u64 = self.bits - SIGN_BIT;
            -(m as i128)
        } else {
            self.bits as i128
        }
    }

    /// Strict order of two values.
    pub fn less(&self, other: &Double) -> (r: bool)
        ensures
            r == self.lt(*other),
    {
        let r = !self.nan() && !other.nan() && self.ranked() < other.ranked();
        proof {
            if !self.is_nan() && !other.is_nan() {
                lemma_rank_orders_as_numbers(*self, *other);
            }
        }
        r
    }

    /// Order of two values, equality allowed.
    pub fn at_most(&self, other: &Double) -> (r: bool)
        ensures
            r == self.le(*other),
    {
        let r = !self.nan() && !other.nan() && self.ranked() <= other.ranked();
        proof {
            if !self.is_nan() && !other.is_nan() {
                lemma_rank_orders_as_numbers(*self, *other);
            }
        }
        r
    }
}

/// The next magnitude stands for a larger number.
proof fn lemma_scale_step(m: int)
    requires
        0 <= m < INFINITY_MAGNITUDE,
    ensures
        scale(m) < scale(m + 1),
{
    let range = FRACTIONS as int;
    let e = m / range;
    let f = m % range;
    assert(m == e * range + f && 0 <= f < range && 0 <= e) by {
        lemma_fundamental_div_mod(m, range);
        lemma_div_pos_is_pos(m, range);
        assert(range * e == e * range) by (nonlinear_arith);
    }
    if f < range - 1 {
        assert((m + 1) / range == e && (m + 1) % range == f + 1) by {
            lemma_fundamental_div_mod_converse(m + 1, range, e, f + 1);
        }
        if e > 0 {
            let p = pow2((e - 1) as nat) as int;
            lemma_pow2_pos((e - 1) as nat);
            assert((range + f) * p < (range + f + 1) * p) by (nonlinear_arith)
                requires
                    p > 0,
            ;
        }
    } else {
        assert((m + 1) / range == e + 1 && (m + 1) % range == 0) by {
            assert((e + 1) * range == e * range + range) by (nonlinear_arith);
            lemma_fundamental_div_mod_converse(m + 1, range, e + 1, 0);
        }
        if e == 0 {
            lemma2_to64();
            assert(pow2(0) == 1);
            assert((range + 0) * 1 == range) by (nonlinear_arith);
        } else {
            let p = pow2((e - 1) as nat) as int;
            lemma_pow2_pos((e - 1) as nat);
            lemma_pow2_unfold(e as nat);
            assert(pow2(e as nat) == 2 * p);
            assert((range + (range - 1)) * p < (range + 0) * (2 * p)) by (nonlinear_arith)
                requires
                    p > 0,
                    range > 0,
            ;
        }
    }
}

/// A larger magnitude stands for a larger number.
proof fn lemma_scale_increases(a: int, b: int)
    requires
        0 <= a < b <= INFINITY_MAGNITUDE,
    ensures
        scale(a) < scale(b),
    decreases b - a,
{
    lemma_scale_step(b - 1);
    if a < b - 1 {
        lemma_scale_increases(a, b - 1);
    }
}

/// The patterns of two numbers are ranked as the numbers are ordered.
pub proof fn lemma_rank_orders_as_numbers(a: Double, b: Double)
    requires
        !a.is_nan(),
        !b.is_nan(),
    ensures
        a.rank() < b.rank() <==> a.lt(b),
        a.rank() <= b.rank() <==> a.le(b),
{
    let ma = a.magnitude();
    let mb = b.magnitude();
    assert(scale(0) == 0);
    if ma > 0 {
        lemma_scale_increases(0, ma);
    }
    if mb > 0 {
        lemma_scale_increases(0, mb);
    }
    if ma < mb {
        lemma_scale_increases(ma, mb);
    }
    if mb < ma {
        lemma_scale_increases(mb, ma);
    }
}

/// Whether the pattern `bits` stands for the whole number `n`.
pub open spec fn stands_for(bits: u64, n: int) -> bool {
    let d = Double { bits };
    !d.is_nan() && d.scaled() == n * pow2(1074)
}

/// The patterns of the numbers that the policy compares with stand for
/// these numbers: 3, 5, 12 and 20.
pub proof fn lemma_small_numbers()
    ensures
        stands_for(0x4008_0000_0000_0000, 3),
        stands_for(0x4014_0000_0000_0000, 5),
        stands_for(0x4028_0000_0000_0000, 12),
        stands_for(0x4034_0000_0000_0000, 20),
{
    lemma2_to64();
    lemma2_to64_rest();
    let range = FRACTIONS as int;
    let unit = pow2(1074) as int;
    // 3 = 1.5 * 2^1: exponent field 1024, fraction 2^51.
    assert(0x4008_0000_0000_0000int / range == 1024 && 0x4008_0000_0000_0000int % range
        == 0x8_0000_0000_0000);
    lemma_pow2_adds(51, 1023);
    assert(pow2(1074) == pow2(51) * pow2(1023));
    assert((range + 0x8_0000_0000_0000) * pow2(1023) == 3 * unit) by (nonlinear_arith)
        requires
            range == 0x10_0000_0000_0000,
            unit == 0x8_0000_0000_0000 * pow2(1023),
    ;
    // 5 = 1.25 * 2^2: exponent field 1025, fraction 2^50.
    assert(0x4014_0000_0000_0000int / range == 1025 && 0x4014_0000_0000_0000int % range
        == 0x4_0000_0000_0000);
    lemma_pow2_adds(50, 1024);
    assert(pow2(1074) == pow2(50) * pow2(1024));
    assert((range + 0x4_0000_0000_0000) * pow2(1024) == 5 * unit) by (nonlinear_arith)
        requires
            range == 0x10_0000_0000_0000,
            unit == 0x4_0000_0000_0000 * pow2(1024),
    ;
    // 12 = 1.5 * 2^3: exponent field 1026, fraction 2^51.
    assert(0x4028_0000_0000_0000int / range == 1026 && 0x4028_0000_0000_0000int % range
        == 0x8_0000_0000_0000);
    lemma_pow2_adds(49, 1025);
    assert(pow2(1074) == pow2(49) * pow2(1025));
    assert((range + 0x8_0000_0000_0000) * pow2(1025) == 12 * unit) by (nonlinear_arith)
        requires
            range == 0x10_0000_0000_0000,
            unit == 0x2_0000_0000_0000 * pow2(1025),
    ;
    // 20 = 1.25 * 2^4: exponent field 1027, fraction 2^50.
    assert(0x4034_0000_0000_0000int / range == 1027 && 0x4034_0000_0000_0000int % range
        == 0x4_0000_0000_0000);
    lemma_pow2_adds(48, 1026);
    assert(pow2(1074) == pow2(48) * pow2(1026));
    assert((range + 0x4_0000_0000_0000) * pow2(1026) == 20 * unit) by (nonlinear_arith)
        requires
            range == 0x10_0000_0000_0000,
            unit == 0x1_0000_0000_0000 * pow2(1026),
    ;
}

} // verus!
