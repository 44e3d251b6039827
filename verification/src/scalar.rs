//! IEEE 754 binary64 numbers, carried by their bit patterns.
//!
//! The geometry around this library is computed in double precision, and its
//! results come in as numbers of this type. The library decides by them: is
//! a distance in front of the ray, which of two hits is nearer, is a weight
//! switched on. Those are comparisons, and a comparison of two binary64
//! numbers is a comparison of two integers read off their bits, which is what
//! this module states and proves. The one piece of arithmetic that the
//! library does on such a number, scaling a color channel by it, is built on
//! the parts of the number that are named here.

use vstd::arithmetic::div_mod::{lemma_basic_div, lemma_div_denominator, lemma_small_div_converse};
use vstd::arithmetic::power2::{
    lemma2_to64, lemma_pow2_pos, lemma_pow2_strictly_increases, lemma_pow2_unfold, pow2,
};
use vstd::prelude::*;

verus! {

/// The sign bit of a binary64 number.
pub const SIGN_BIT: u64 = 0x8000_0000_0000_0000;

/// The bit pattern of positive infinity: every magnitude above it is a NaN.
pub const INFINITY_BITS: u64 = 0x7FF0_0000_0000_0000;

/// The lowest bit of the exponent field, two to the 52nd: the bit that a
/// normal number's significand holds without storing it.
pub const HIDDEN_BIT: u64 = 0x0010_0000_0000_0000;

/// A binary64 number, held as the 64 bits that encode it.
#[derive(Clone, Copy, Debug)]
pub struct Scalar {
    pub bits: u64,
}

impl Scalar {
    /// The bits without the sign: exponent and fraction, read as an integer.
    /// Among numbers of one sign, a larger magnitude is a number further
    /// from zero.
    pub open spec fn magnitude(self) -> int {
        if self.bits >= SIGN_BIT {
            self.bits - SIGN_BIT
        } else {
            self.bits as int
        }
    }

    /// Whether the sign bit is set. True of `-0.0` as well.
    pub open spec fn sign(self) -> bool {
        self.bits >= SIGN_BIT
    }

    /// Not a number: the exponent is all ones and the fraction is not zero.
    pub open spec fn spec_is_nan(self) -> bool {
        self.magnitude() > INFINITY_BITS
    }

    /// Neither a NaN nor an infinity.
    pub open spec fn spec_is_finite(self) -> bool {
        self.magnitude() < INFINITY_BITS
    }

    /// The exponent field: the eleven bits below the sign.
    pub open spec fn exponent(self) -> int {
        self.magnitude() / (HIDDEN_BIT as int)
    }

    /// The significand of a finite number, as an integer: the 52 fraction
    /// bits, and above them the hidden bit unless the exponent field is 0.
    pub open spec fn significand(self) -> int {
        if self.exponent() == 0 {
            self.magnitude() % (HIDDEN_BIT as int)
        } else {
            HIDDEN_BIT + self.magnitude() % (HIDDEN_BIT as int)
        }
    }

    /// The power of two that scales the significand: the absolute value of
    /// a finite number is `significand() * 2^power()`.
    pub open spec fn power(self) -> int {
        if self.exponent() == 0 {
            -1074
        } else {
            self.exponent() - 1075
        }
    }

    /// The integer part of the number, as a conversion to an unsigned 64-bit
    /// integer gives it: the number cut toward zero, 0 for a number below
    /// zero and for a NaN, and the largest integer of the type for a number
    /// beyond it.
    pub open spec fn spec_whole(self) -> int {
        if self.spec_is_nan() || self.sign() {
            0
        } else if !self.spec_is_finite() {
            u64::MAX as int
        } else if self.power() >= 0 {
            let value = self.significand() * pow2(self.power() as nat);
            if value > u64::MAX {
                u64::MAX as int
            } else {
                value
            }
        } else {
            self.significand() / (pow2((-self.power()) as nat) as int)
        }
    }

    /// The place of a number on the extended real line, as an integer that
    /// grows with the number. Both zeros rank 0. Meaningless for a NaN.
    pub open spec fn rank(self) -> int {
        if self.sign() {
            -self.magnitude()
        } else {
            self.magnitude()
        }
    }

    /// `self < other` as IEEE 754 defines it: false when either is a NaN.
    pub open spec fn spec_lt(self, other: Scalar) -> bool {
        !self.spec_is_nan() && !other.spec_is_nan() && self.rank() < other.rank()
    }

    /// `self <= other` as IEEE 754 defines it: false when either is a NaN.
    pub open spec fn spec_le(self, other: Scalar) -> bool {
        !self.spec_is_nan() && !other.spec_is_nan() && self.rank() <= other.rank()
    }

    /// `self > 0.0`.
    pub open spec fn spec_is_positive(self) -> bool {
        Scalar::zero().spec_lt(self)
    }

    /// `self < 0.0`.
    pub open spec fn spec_is_negative(self) -> bool {
        self.spec_lt(Scalar::zero())
    }

    /// `self >= 0.0`.
    pub open spec fn spec_is_non_negative(self) -> bool {
        Scalar::zero().spec_le(self)
    }

    /// Positive zero.
    pub open spec fn zero() -> Scalar {
        Scalar { bits: 0 }
    }

    /// The number that `bits` encodes.
    pub fn from_bits(bits: u64) -> (x: Scalar)
        ensures
            x.bits == bits,
    {
        Scalar { bits }
    }

    /// The bits that encode the number.
    pub fn to_bits(&self) -> (bits: u64)
        ensures
            bits == self.bits,
    {
        self.bits
    }

    /// The sign and the magnitude of the number.
    fn parts(&self) -> (p: (bool, u64))
        ensures
            p.0 == self.sign(),
            p.1 == self.magnitude(),
    {
        if self.bits >= SIGN_BIT {
            (true, self.bits - SIGN_BIT)
        } else {
            (false, self.bits)
        }
    }

    /// Whether the number is a NaN.
    pub fn is_nan(&self) -> (nan: bool)
        ensures
            nan == self.spec_is_nan(),
    {
        self.parts().1 > INFINITY_BITS
    }

    /// The integer part of the number, as a conversion to `u64` gives it.
    pub fn whole(&self) -> (n: u64)
        ensures
            n == self.spec_whole(),
    {
        let (negative, magnitude) = self.parts();
        if negative || magnitude > INFINITY_BITS {
            return 0;
        }
        if magnitude == INFINITY_BITS {
            return u64::MAX;
        }
        let exponent = magnitude / HIDDEN_BIT;
        let fraction = magnitude % HIDDEN_BIT;
        if exponent == 0 {
            shift_down(fraction, 1074)
        } else if exponent < 1075 {
            shift_down(HIDDEN_BIT + fraction, 1075 - exponent)
        } else if exponent - 1075 >= 12 {
            proof {
                // at least 2^52 * 2^12
                let power = (exponent - 1075) as nat;
                lemma2_to64();
                if power > 12 {
                    lemma_pow2_strictly_increases(12, power);
                }
                assert((HIDDEN_BIT + fraction) * pow2(power) > u64::MAX) by (nonlinear_arith)
                    requires
                        pow2(power) >= 0x1000,
                        HIDDEN_BIT + fraction >= HIDDEN_BIT,
                ;
            }
            u64::MAX
        } else {
            let mut value = HIDDEN_BIT + fraction;
            let mut done: u64 = 0;
            let power = exponent - 1075;
            proof {
                lemma2_to64();
            }
            while done < power
                invariant
                    done <= power < 12,
                    value == (HIDDEN_BIT + fraction) * pow2(done as nat),
                    fraction < HIDDEN_BIT,
                decreases power - done,
            {
                proof {
                    lemma2_to64();
                    lemma_pow2_unfold((done + 1) as nat);
                    if done + 1 < 11 {
                        lemma_pow2_strictly_increases((done + 1) as nat, 11);
                    }
                    assert((HIDDEN_BIT + fraction) * (2 * pow2(done as nat)) == 2 * ((HIDDEN_BIT
                        + fraction) * pow2(done as nat))) by (nonlinear_arith);
                    assert((HIDDEN_BIT + fraction) * pow2((done + 1) as nat) <= u64::MAX)
                        by (nonlinear_arith)
                        requires
                            0 <= HIDDEN_BIT + fraction < 0x20_0000_0000_0000,
                            0 < pow2((done + 1) as nat) <= 0x800,
                    ;
                }
                value = value * 2;
                done = done + 1;
            }
            value
        }
    }

    /// `self < other`.
    pub fn lt(&self, other: &Scalar) -> (less: bool)
        ensures
            less == self.spec_lt(*other),
    {
        let (s_neg, s_mag) = self.parts();
        let (o_neg, o_mag) = other.parts();
        if s_mag > INFINITY_BITS || o_mag > INFINITY_BITS {
            false
        } else if s_neg && o_neg {
            o_mag < s_mag
        } else if s_neg {
            s_mag > 0 || o_mag > 0
        } else if o_neg {
            false
        } else {
            s_mag < o_mag
        }
    }

    /// `self <= other`.
    pub fn le(&self, other: &Scalar) -> (at_most: bool)
        ensures
            at_most == self.spec_le(*other),
    {
        let (s_neg, s_mag) = self.parts();
        let (o_neg, o_mag) = other.parts();
        if s_mag > INFINITY_BITS || o_mag > INFINITY_BITS {
            false
        } else if s_neg && o_neg {
            o_mag <= s_mag
        } else if s_neg {
            true
        } else if o_neg {
            s_mag == 0 && o_mag == 0
        } else {
            s_mag <= o_mag
        }
    }

    /// `self > 0.0`.
    pub fn is_positive(&self) -> (positive: bool)
        ensures
            positive == self.spec_is_positive(),
            positive == (0 < self.bits <= INFINITY_BITS),
    {
        0 < self.bits && self.bits <= INFINITY_BITS
    }

    /// `self < 0.0`.
    pub fn is_negative(&self) -> (negative: bool)
        ensures
            negative == self.spec_is_negative(),
            negative == (SIGN_BIT < self.bits <= SIGN_BIT + INFINITY_BITS),
    {
        SIGN_BIT < self.bits && self.bits - SIGN_BIT <= INFINITY_BITS
    }

    /// `self >= 0.0`. True of both zeros, false of a NaN.
    pub fn is_non_negative(&self) -> (non_negative: bool)
        ensures
            non_negative == self.spec_is_non_negative(),
            non_negative == (self.bits <= INFINITY_BITS || self.bits == SIGN_BIT),
    {
        self.bits <= INFINITY_BITS || self.bits == SIGN_BIT
    }
}

/// Computes `value / 2^shift`.
pub(crate) fn shift_down(value: u64, shift: u64) -> (shifted: u64)
    ensures
        shifted == value as int / (pow2(shift as nat) as int),
{
    let mut shifted = value;
    let mut done: u64 = 0;
    proof {
        lemma2_to64();
    }
    while done < shift && shifted > 0
        invariant
            done <= shift,
            shifted == value as int / (pow2(done as nat) as int),
        decreases shift - done,
    {
        proof {
            lemma_pow2_pos(done as nat);
            lemma_pow2_unfold((done + 1) as nat);
            lemma_div_denominator(value as int, pow2(done as nat) as int, 2);
            assert(pow2(done as nat) * 2 == 2 * pow2(done as nat));
        }
        shifted = shifted / 2;
        done = done + 1;
    }
    proof {
        if done < shift {
            // nothing is left: the value is below 2^done, and so below 2^shift
            lemma_pow2_pos(done as nat);
            lemma_pow2_pos(shift as nat);
            lemma_pow2_strictly_increases(done as nat, shift as nat);
            lemma_small_div_converse(value as int, pow2(done as nat) as int);
            lemma_basic_div(value as int, pow2(shift as nat) as int);
        }
    }
    shifted
}

/// Exactly one of `a < b`, `b <= a` holds of two numbers, unless one is a NaN,
/// and then neither does.
pub proof fn lemma_lt_or_ge(a: Scalar, b: Scalar)
    ensures
        a.spec_is_nan() || b.spec_is_nan() ==> !a.spec_lt(b) && !b.spec_le(a),
        !a.spec_is_nan() && !b.spec_is_nan() ==> (a.spec_lt(b) <==> !b.spec_le(a)),
{
}

/// `<=` is transitive, and `<` follows from `<=` and `<` in either order.
pub proof fn lemma_le_transitive(a: Scalar, b: Scalar, c: Scalar)
    ensures
        a.spec_le(b) && b.spec_le(c) ==> a.spec_le(c),
        a.spec_lt(b) && b.spec_le(c) ==> a.spec_lt(c),
        a.spec_le(b) && b.spec_lt(c) ==> a.spec_lt(c),
{
}

/// Signs are exclusive: no number is both `> 0.0` and `< 0.0`, and a number
/// is `>= 0.0` exactly if it is neither a NaN nor `< 0.0`.
pub proof fn lemma_sign_cases(a: Scalar)
    ensures
        !(a.spec_is_positive() && a.spec_is_negative()),
        a.spec_is_non_negative() <==> !a.spec_is_nan() && !a.spec_is_negative(),
        a.spec_is_positive() ==> a.spec_is_non_negative(),
{
}

} // verus!
