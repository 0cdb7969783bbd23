//! Single-precision numbers, held by their bit patterns.
//!
//! A [`Scalar`] is an IEEE 754 binary32 number: one sign bit, eight exponent
//! bits and twenty-three fraction bits. This module decides everything that
//! can be decided from the bit pattern alone (classification, sign, order and
//! the saturating conversion to a byte) and proves each decision against the
//! number that the pattern stands for ([`Scalar::scaled`]). It does no
//! arithmetic: sums, products, roots and the like are computed by the caller
//! and handed in as scalars.
use vstd::arithmetic::power2::{
    lemma2_to64, lemma_pow2_adds, lemma_pow2_pos, lemma_pow2_strictly_increases, lemma_pow2_unfold,
    pow2,
};
use vstd::prelude::*;

verus! {

/// The sign bit of a binary32 bit pattern.
pub const SIGN_BIT: u32 = 0x8000_0000;

/// The bit pattern of positive infinity: every exponent bit set, no fraction bit.
pub const INFINITY_BITS: u32 = 0x7f80_0000;

/// The value of the lowest exponent bit; also the implicit leading bit of a
/// normal number's significand.
pub const HIDDEN_BIT: u32 = 0x0080_0000;

/// The bit pattern of `1.0`.
pub const ONE_BITS: u32 = 0x3f80_0000;

/// The biased exponent of `1.0`.
pub const EXPONENT_BIAS: u32 = 127;

/// An IEEE 754 binary32 number, held by its bit pattern.
///
/// Two scalars are `==` when their bit patterns are equal. That is finer than
/// numeric equality: the two zeros differ, and a NaN equals itself.
#[derive(Clone, Copy, Debug, PartialEq, Eq, Structural)]
pub struct Scalar {
    pub bits: u32,
}

impl Scalar {
    /// The sign bit is set. True of `-0.0` and of NaNs with the sign bit set.
    pub open spec fn sign_negative(self) -> bool {
        self.bits >= SIGN_BIT
    }

    /// The bit pattern without its sign bit.
    pub open spec fn magnitude(self) -> int {
        if self.bits >= SIGN_BIT {
            self.bits - SIGN_BIT
        } else {
            self.bits as int
        }
    }

    /// The biased exponent field, `0..=255`.
    pub open spec fn exponent(self) -> int {
        self.magnitude() / (HIDDEN_BIT as int)
    }

    /// The fraction field, `0..2^23`.
    pub open spec fn fraction(self) -> int {
        self.magnitude() % (HIDDEN_BIT as int)
    }

    /// Not a number: all exponent bits set and some fraction bit set.
    pub open spec fn nan(self) -> bool {
        self.magnitude() > INFINITY_BITS
    }

    /// Positive or negative infinity.
    pub open spec fn infinite(self) -> bool {
        self.magnitude() == INFINITY_BITS
    }

    /// Position on the number line, for scalars that are not NaN.
    ///
    /// Among non-negative binary32 numbers a larger bit pattern is a larger
    /// number, and the negative ones mirror them; both zeros have rank 0.
    /// So `a` is numerically below `b` exactly when `a.rank() < b.rank()`
    /// ([`lemma_order_is_numeric`]).
    pub open spec fn rank(self) -> int {
        if self.sign_negative() {
            -self.magnitude()
        } else {
            self.magnitude()
        }
    }

    /// The number that the scalar stands for, times `2^149`: an integer for
    /// every scalar that is not NaN. A scalar with exponent field 0 and
    /// fraction `f` stands for `f * 2^-149`; one with exponent field `e`
    /// above 0 stands for `(2^23 + f) * 2^(e - 150)`. Infinity is given the
    /// value that its bit pattern would have as a number, above every
    /// number.
    pub open spec fn scaled(self) -> int {
        if self.sign_negative() {
            -weight(self.magnitude())
        } else {
            weight(self.magnitude())
        }
    }

    /// Numeric `self < other`. False when either side is NaN.
    pub open spec fn below(self, other: Scalar) -> bool {
        !self.nan() && !other.nan() && self.rank() < other.rank()
    }

    /// Numeric `self <= other`. False when either side is NaN.
    pub open spec fn at_most(self, other: Scalar) -> bool {
        !self.nan() && !other.nan() && self.rank() <= other.rank()
    }

    /// The scalar with the opposite sign bit.
    pub open spec fn negated(self) -> Scalar {
        if self.bits >= SIGN_BIT {
            Scalar { bits: (self.bits - SIGN_BIT) as u32 }
        } else {
            Scalar { bits: (self.bits + SIGN_BIT) as u32 }
        }
    }

    /// The scalar with the sign bit cleared.
    pub open spec fn absolute(self) -> Scalar {
        Scalar { bits: self.magnitude() as u32 }
    }

    /// The byte nearest to the scalar among those not further from zero:
    /// the number with its fraction cut off, held to `0..=255`; 0 for a NaN.
    ///
    /// A normal number with exponent field `e` and fraction `f` is
    /// `(2^23 + f) * 2^(e - 150)`. Below `e = 127` it is less than one, from
    /// `e = 135` on it is at least 256, and in between its integer part is
    /// `(2^23 + f) / 2^(150 - e)`.
    pub open spec fn byte(self) -> int {
        if self.nan() || self.sign_negative() || self.exponent() < EXPONENT_BIAS {
            0
        } else if self.exponent() >= EXPONENT_BIAS + 8 {
            255
        } else {
            (HIDDEN_BIT + self.fraction()) / (pow2((150 - self.exponent()) as nat) as int)
        }
    }

    pub fn from_bits(bits: u32) -> (s: Scalar)
        ensures
            s.bits == bits,
    {
        Scalar { bits }
    }

    pub fn to_bits(self) -> (bits: u32)
        ensures
            bits == self.bits,
    {
        self.bits
    }

    /// `+0.0`.
    pub fn zero() -> (s: Scalar)
        ensures
            s.bits == 0,
            s.rank() == 0,
            !s.nan(),
    {
        Scalar { bits: 0 }
    }

    /// `1.0`.
    pub fn one() -> (s: Scalar)
        ensures
            s.bits == ONE_BITS,
            !s.nan(),
    {
        Scalar { bits: ONE_BITS }
    }

    /// Positive infinity.
    pub fn infinity() -> (s: Scalar)
        ensures
            s.bits == INFINITY_BITS,
            s.infinite(),
            !s.sign_negative(),
    {
        Scalar { bits: INFINITY_BITS }
    }

    fn magnitude_bits(self) -> (m: u32)
        ensures
            m == self.magnitude(),
            m < SIGN_BIT,
    {
        if self.bits >= SIGN_BIT {
            self.bits - SIGN_BIT
        } else {
            self.bits
        }
    }

    fn rank_value(self) -> (r: i64)
        ensures
            r == self.rank(),
    {
        let m: u32 = self.magnitude_bits();
        if self.bits >= SIGN_BIT {
            -(m as i64)
        } else {
            m as i64
        }
    }

    #[verifier::when_used_as_spec(sign_negative)]
    pub fn is_sign_negative(self) -> (b: bool)
        ensures
            b == self.sign_negative(),
    {
        self.bits >= SIGN_BIT
    }

    #[verifier::when_used_as_spec(nan)]
    pub fn is_nan(self) -> (b: bool)
        ensures
            b == self.nan(),
    {
        self.magnitude_bits() > INFINITY_BITS
    }

    #[verifier::when_used_as_spec(infinite)]
    pub fn is_infinite(self) -> (b: bool)
        ensures
            b == self.infinite(),
    {
        self.magnitude_bits() == INFINITY_BITS
    }

    /// Numeric `self < other`.
    #[verifier::when_used_as_spec(below)]
    pub fn lt(self, other: Scalar) -> (b: bool)
        ensures
            b == self.below(other),
    {
        !self.is_nan() && !other.is_nan() && self.rank_value() < other.rank_value()
    }

    /// Numeric `self <= other`.
    #[verifier::when_used_as_spec(at_most)]
    pub fn le(self, other: Scalar) -> (b: bool)
        ensures
            b == self.at_most(other),
    {
        !self.is_nan() && !other.is_nan() && self.rank_value() <= other.rank_value()
    }

    /// Numeric `self > other`.
    pub fn gt(self, other: Scalar) -> (b: bool)
        ensures
            b == other.below(self),
    {
        other.lt(self)
    }

    /// Numeric `self >= other`.
    pub fn ge(self, other: Scalar) -> (b: bool)
        ensures
            b == other.at_most(self),
    {
        other.le(self)
    }

    /// Flips the sign bit, as negation does for every binary32 number, NaNs
    /// and zeros included.
    #[verifier::when_used_as_spec(negated)]
    pub fn neg(self) -> (s: Scalar)
        ensures
            s == self.negated(),
            s.magnitude() == self.magnitude(),
            s.sign_negative() == !self.sign_negative(),
            s.nan() == self.nan(),
            !self.nan() ==> s.rank() == -self.rank(),
    {
        if self.bits >= SIGN_BIT {
            Scalar { bits: self.bits - SIGN_BIT }
        } else {
            Scalar { bits: self.bits + SIGN_BIT }
        }
    }

    /// Clears the sign bit.
    #[verifier::when_used_as_spec(absolute)]
    pub fn abs(self) -> (s: Scalar)
        ensures
            s == self.absolute(),
            !s.sign_negative(),
            s.magnitude() == self.magnitude(),
            s.nan() == self.nan(),
            s.rank() == self.magnitude(),
    {
        Scalar { bits: self.magnitude_bits() }
    }

    /// The saturating conversion to a byte: the fraction is cut off, numbers
    /// below zero give 0, numbers from 255 on give 255, and a NaN gives 0.
    pub fn to_u8(self) -> (b: u8)
        ensures
            b == self.byte(),
    {
        if self.bits >= SIGN_BIT || self.bits > INFINITY_BITS {
            return 0;
        }
        let exponent: u32 = self.bits / HIDDEN_BIT;
        let fraction: u32 = self.bits % HIDDEN_BIT;
        if exponent < EXPONENT_BIAS {
            0
        } else if exponent >= EXPONENT_BIAS + 8 {
            255
        } else {
            let significand: u32 = HIDDEN_BIT + fraction;
            let shift: u32 = 150 - exponent;
            let whole: u32 = significand >> shift;
            proof {
                vstd::bits::lemma_u32_shr_is_div(significand, shift);
                assert(whole < 256) by (bit_vector)
                    requires
                        whole == significand >> shift,
                        16 <= shift <= 23,
                        significand < 0x0100_0000u32,
                ;
            }
            whole as u8
        }
    }
}

/// The value, times `2^149`, of the non-negative scalar with bit pattern
/// `magnitude`.
pub open spec fn weight(magnitude: int) -> int {
    let exponent = magnitude / (HIDDEN_BIT as int);
    let fraction = magnitude % (HIDDEN_BIT as int);
    if exponent == 0 {
        fraction
    } else {
        (HIDDEN_BIT + fraction) * pow2((exponent - 1) as nat)
    }
}

/// Among non-negative scalars a larger bit pattern is a larger number.
pub proof fn lemma_weight_increases(m1: int, m2: int)
    requires
        0 <= m1 < m2,
    ensures
        0 <= weight(m1) < weight(m2),
{
    let hidden = HIDDEN_BIT as int;
    let (e1, f1) = (m1 / hidden, m1 % hidden);
    let (e2, f2) = (m2 / hidden, m2 % hidden);
    assert(m1 == e1 * hidden + f1 && m2 == e2 * hidden + f2);
    assert(0 <= e1 <= e2);
    if e1 == e2 {
        if e1 > 0 {
            let p = pow2((e1 - 1) as nat) as int;
            lemma_pow2_pos((e1 - 1) as nat);
            assert(0 <= (hidden + f1) * p < (hidden + f2) * p) by (nonlinear_arith)
                requires
                    0 <= f1 < f2,
                    hidden > 0,
                    p > 0,
            ;
        }
    } else {
        let p2 = pow2((e2 - 1) as nat) as int;
        lemma_pow2_pos((e2 - 1) as nat);
        assert(hidden * p2 <= (hidden + f2) * p2) by (nonlinear_arith)
            requires
                0 <= f2,
                p2 > 0,
        ;
        if e1 == 0 {
            assert(hidden <= hidden * p2) by (nonlinear_arith)
                requires
                    hidden > 0,
                    p2 >= 1,
            ;
        } else {
            let p1 = pow2((e1 - 1) as nat) as int;
            lemma_pow2_pos((e1 - 1) as nat);
            lemma_pow2_unfold(e1 as nat);
            if e1 < e2 - 1 {
                lemma_pow2_strictly_increases(e1 as nat, (e2 - 1) as nat);
            }
            assert(pow2(e1 as nat) <= p2);
            assert(0 <= (hidden + f1) * p1 < hidden * (2 * p1)) by (nonlinear_arith)
                requires
                    0 <= f1 < hidden,
                    p1 > 0,
            ;
            assert(hidden * (2 * p1) <= hidden * p2) by (nonlinear_arith)
                requires
                    hidden > 0,
                    2 * p1 <= p2,
            ;
        }
    }
}

/// The order of scalars is the order of the numbers they stand for.
pub proof fn lemma_order_is_numeric(a: Scalar, b: Scalar)
    requires
        !a.nan(),
        !b.nan(),
    ensures
        a.below(b) <==> a.scaled() < b.scaled(),
        a.at_most(b) <==> a.scaled() <= b.scaled(),
{
    let (ma, mb) = (a.magnitude(), b.magnitude());
    assert(weight(0) == 0);
    if ma > 0 {
        lemma_weight_increases(0, ma);
    }
    if mb > 0 {
        lemma_weight_increases(0, mb);
    }
    if ma < mb {
        lemma_weight_increases(ma, mb);
    } else if mb < ma {
        lemma_weight_increases(mb, ma);
    }
}

/// Negation mirrors a number at zero, and the absolute value is the
/// distance from zero.
pub proof fn lemma_negated_is_numeric(a: Scalar)
    ensures
        a.negated().scaled() == -a.scaled(),
        a.absolute().scaled() == if a.scaled() < 0 {
            -a.scaled()
        } else {
            a.scaled()
        },
{
    assert(weight(0) == 0);
    if a.magnitude() > 0 {
        lemma_weight_increases(0, a.magnitude());
    }
}

/// The byte of a scalar is the integer part of its number, held to
/// `0..=255`: zero for a number below one, 255 for a number from 255 on,
/// and in between the integer `q` with `q <= number < q + 1`.
pub proof fn lemma_byte_is_integer_part(s: Scalar)
    requires
        !s.nan(),
    ensures
        0 <= s.byte() <= 255,
        s.scaled() < pow2(149) ==> s.byte() == 0,
        s.scaled() >= 255 * pow2(149) ==> s.byte() == 255,
        0 <= s.scaled() < 255 * pow2(149) ==> s.byte() * pow2(149) <= s.scaled() < (s.byte() + 1)
            * pow2(149),
{
    let hidden = HIDDEN_BIT as int;
    let m = s.magnitude();
    let (e, f) = (s.exponent(), s.fraction());
    let unit = pow2(149) as int;
    lemma_pow2_pos(149);
    lemma_weight_of_one();
    assert(weight(0) == 0);
    if m > 0 {
        lemma_weight_increases(0, m);
    }
    if s.sign_negative() {
        assert(s.scaled() <= 0);
        assert(s.byte() == 0);
        assert(0 * unit == 0 && (0 + 1) * unit == unit);
    } else if e < EXPONENT_BIAS {
        assert(m < ONE_BITS);
        lemma_weight_increases(m, ONE_BITS as int);
        assert(s.byte() == 0);
        assert(0 <= s.scaled() < unit);
        assert(0 * unit == 0 && (0 + 1) * unit == unit);
    } else if e >= EXPONENT_BIAS + 8 {
        lemma_weight_above_255(s);
        assert(s.byte() == 255);
        assert(s.scaled() >= 256 * unit);
    } else {
        let shift = (150 - e) as nat;
        let d = pow2(shift) as int;
        let p = pow2((e - 1) as nat) as int;
        let sig = hidden + f;
        let q = sig / d;
        lemma2_to64();
        lemma_pow2_pos(shift);
        lemma_pow2_pos((e - 1) as nat);
        lemma_pow2_adds(shift, (e - 1) as nat);
        assert(unit == d * p);
        assert(s.scaled() == sig * p);
        if shift > 16 {
            lemma_pow2_strictly_increases(16, shift);
        }
        assert(d >= 0x1_0000);
        vstd::arithmetic::div_mod::lemma_fundamental_div_mod(sig, d);
        vstd::arithmetic::div_mod::lemma_mod_bound(sig, d);
        assert(q * d <= sig < (q + 1) * d) by (nonlinear_arith)
            requires
                sig == d * q + sig % d,
                0 <= sig % d < d,
        ;
        assert(0 <= q < 256) by (nonlinear_arith)
            requires
                q * d <= sig < (q + 1) * d,
                0 <= sig < 0x100_0000,
                d >= 0x1_0000,
        ;
        assert(q * (d * p) <= sig * p < (q + 1) * (d * p)) by (nonlinear_arith)
            requires
                q * d <= sig < (q + 1) * d,
                p > 0,
        ;
        if m >= ONE_BITS + 1 {
            lemma_weight_increases(ONE_BITS as int, m);
        }
        assert(s.scaled() >= unit);
        assert(q >= 1) by (nonlinear_arith)
            requires
                sig * p < (q + 1) * unit,
                sig * p >= unit,
                unit > 0,
        ;
        if q < 255 {
            assert((q + 1) * unit <= 255 * unit) by (nonlinear_arith)
                requires
                    q + 1 <= 255,
                    unit > 0,
            ;
        }
        assert(s.byte() == q);
        assert(q * unit <= s.scaled() < (q + 1) * unit);
    }
}

/// `1.0` stands for one: its value times `2^149` is `2^149`.
pub proof fn lemma_weight_of_one()
    ensures
        weight(ONE_BITS as int) == pow2(149),
{
    lemma_pow2_adds(23, 126);
    lemma2_to64();
    assert(ONE_BITS as int / (HIDDEN_BIT as int) == 127);
    assert(ONE_BITS as int % (HIDDEN_BIT as int) == 0);
}

/// A number with exponent field 135 or more is at least 256.
proof fn lemma_weight_above_255(s: Scalar)
    requires
        !s.sign_negative(),
        s.exponent() >= EXPONENT_BIAS + 8,
    ensures
        s.scaled() >= 256 * pow2(149),
{
    let e = s.exponent();
    let p = pow2((e - 1) as nat) as int;
    lemma_pow2_adds(8, 149);
    lemma_pow2_adds(23, 134);
    lemma2_to64();
    lemma_pow2_pos((e - 1) as nat);
    lemma_pow2_pos(134);
    if e - 1 > 134 {
        lemma_pow2_strictly_increases(134, (e - 1) as nat);
    }
    assert(p >= pow2(134));
    assert(pow2(157) == 256 * pow2(149));
    assert(pow2(157) == HIDDEN_BIT * pow2(134));
    assert((HIDDEN_BIT + s.fraction()) * p >= HIDDEN_BIT * pow2(134)) by (nonlinear_arith)
        requires
            s.fraction() >= 0,
            p >= pow2(134),
            pow2(134) > 0,
    ;
}

} // verus!
