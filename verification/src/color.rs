//! Arithmetic on one 8-bit color channel.
//!
//! Every operation on a color is one of these, done on each of its three
//! channels. A channel is a fraction of full intensity: 255 stands for 1.
//!
//! Weights are binary64 numbers. What double precision makes of a channel
//! times a weight is a matter of integers: the weight's significand times the
//! channel, rounded to 53 bits and shifted. It is stated and computed here in
//! integers, so that a color is the same on every machine.

use crate::scalar::{shift_down, Scalar, HIDDEN_BIT, INFINITY_BITS, SIGN_BIT};
use vstd::arithmetic::div_mod::{
    lemma_div_denominator, lemma_fundamental_div_mod, lemma_mod_bound,
};
use vstd::arithmetic::power2::{lemma_pow2_pos, pow2};
use vstd::prelude::*;

verus! {

/// `x` cut off at nothing and at full intensity.
pub open spec fn saturate(x: int) -> u8 {
    if x >= 255 {
        255u8
    } else if x <= 0 {
        0u8
    } else {
        x as u8
    }
}

/// The sum of two channels, cut off at full intensity.
pub open spec fn channel_sum(a: u8, b: u8) -> u8 {
    saturate(a + b)
}

/// The product of two channels read as fractions of full intensity, rounded
/// toward zero.
pub open spec fn channel_product(a: u8, b: u8) -> u8 {
    ((a * b) / 255) as u8
}

/// What is missing from a channel to full intensity.
pub open spec fn channel_complement(a: u8) -> u8 {
    (255 - a) as u8
}

/// The step between neighbouring binary64 numbers around the integer `q`,
/// for `q >= 0`: 1 as long as `q` fits the 53 bits of a significand, and else
/// the power of two that leaves 53 bits of it.
pub open spec fn granule(q: int) -> int
    decreases q,
{
    if q < 2 * HIDDEN_BIT {
        1
    } else {
        2 * granule(q / 2)
    }
}

/// `q` rounded to a multiple of `step`: to the nearest, and of two that are
/// equally near to the even one.
pub open spec fn round_half_even(q: int, step: int) -> int {
    let low = q / step;
    let rest = q % step;
    if 2 * rest > step || (2 * rest == step && low % 2 == 1) {
        (low + 1) * step
    } else {
        low * step
    }
}

/// The integer part of the product of a channel and a positive finite
/// binary64 number, as double precision computes it: the exact product,
/// rounded to 53 significant bits, ties to even, and then cut toward zero.
/// (A product too small or too large to be a normal number is rounded in
/// another way; its integer part is 0, or far above 255, in either way.)
pub open spec fn product_floor(c: u8, k: Scalar) -> int {
    let q = c * k.significand();
    let rounded = round_half_even(q, granule(q));
    if k.power() >= 0 {
        rounded * pow2(k.power() as nat)
    } else {
        rounded / (pow2((-k.power()) as nat) as int)
    }
}

/// A channel scaled by a binary64 number: their product in double
/// precision, cut to an integer and cut off at 0 and at 255. A product that
/// is no number counts as 0.
pub open spec fn channel_scaled(c: u8, k: Scalar) -> u8 {
    if k.spec_is_nan() || k.sign() || c == 0 {
        0
    } else if !k.spec_is_finite() {
        255
    } else {
        saturate(product_floor(c, k))
    }
}

/// Computes [`channel_sum`].
pub fn add_channel(a: u8, b: u8) -> (sum: u8)
    ensures
        sum == channel_sum(a, b),
{
    let wide: u16 = a as u16 + b as u16;
    if wide >= 255 {
        255
    } else {
        wide as u8
    }
}

/// Computes [`channel_product`].
pub fn mul_channel(a: u8, b: u8) -> (product: u8)
    ensures
        product == channel_product(a, b),
        product <= a,
        product <= b,
{
    proof {
        lemma_product_bounds(a, b);
    }
    let wide: u16 = a as u16 * b as u16;
    (wide / 255) as u8
}

/// Computes a channel multiplied by the count `k` and cut off at full
/// intensity.
pub fn times_channel(a: u8, k: u8) -> (product: u8)
    ensures
        product == saturate(a * k),
{
    proof {
        lemma_product_bounds(a, k);
    }
    let wide: u16 = a as u16 * k as u16;
    if wide >= 255 {
        255
    } else {
        wide as u8
    }
}

/// Computes [`channel_complement`].
pub fn complement_channel(a: u8) -> (rest: u8)
    ensures
        rest == channel_complement(a),
{
    255 - a
}

/// Computes [`granule`] of `q`, and `q` in units of it.
fn granule_of(q: u64) -> (found: (u64, u64))
    requires
        q < 512 * HIDDEN_BIT,
    ensures
        found.0 == granule(q as int),
        found.1 == q / found.0,
        1 <= found.0 < 512,
{
    let mut step: u64 = 1;
    let mut units: u64 = q;
    while units >= 2 * HIDDEN_BIT
        invariant
            1 <= step < 512,
            units == q / step,
            granule(q as int) == step * granule(units as int),
            q < 512 * HIDDEN_BIT,
        decreases units,
    {
        proof {
            lemma_fundamental_div_mod(q as int, step as int);
            lemma_mod_bound(q as int, step as int);
            assert(step < 256) by (nonlinear_arith)
                requires
                    step * units <= q,
                    units >= 2 * HIDDEN_BIT,
                    q < 512 * HIDDEN_BIT,
                    step >= 1,
            ;
            lemma_div_denominator(q as int, step as int, 2);
            assert(step * (2 * granule(units as int / 2)) == (step * 2) * granule(
                units as int / 2,
            )) by (nonlinear_arith);
        }
        units = units / 2;
        step = step * 2;
    }
    (step, units)
}

/// Computes [`round_half_even`] of `q` to its own [`granule`].
fn round_to_granule(q: u64) -> (rounded: u64)
    requires
        q < 512 * HIDDEN_BIT,
    ensures
        rounded == round_half_even(q as int, granule(q as int)),
        q - 512 < rounded < q + 512,
{
    let (step, low) = granule_of(q);
    let rest = q % step;
    proof {
        lemma_fundamental_div_mod(q as int, step as int);
        lemma_mod_bound(q as int, step as int);
        assert(low * step == step * low) by (nonlinear_arith);
        assert((low + 1) * step == low * step + step) by (nonlinear_arith);
    }
    if 2 * rest > step || (2 * rest == step && low % 2 == 1) {
        (low + 1) * step
    } else {
        low * step
    }
}

/// Computes [`channel_scaled`].
pub fn scale_channel(c: u8, k: Scalar) -> (scaled: u8)
    ensures
        scaled == channel_scaled(c, k),
{
    if k.bits >= SIGN_BIT || k.bits > INFINITY_BITS || c == 0 {
        return 0;
    }
    if k.bits == INFINITY_BITS {
        return 255;
    }
    let exponent = k.bits / HIDDEN_BIT;
    let fraction = k.bits % HIDDEN_BIT;
    let significand = if exponent == 0 {
        fraction
    } else {
        HIDDEN_BIT + fraction
    };
    assert(c * significand < 512 * HIDDEN_BIT) by (nonlinear_arith)
        requires
            0 <= c < 256,
            0 <= significand < 2 * HIDDEN_BIT,
    ;
    let q = c as u64 * significand;
    let rounded = round_to_granule(q);
    if exponent >= 1075 {
        proof {
            // the product is at least the significand, which is at least 2^52
            let power = (exponent - 1075) as nat;
            lemma_pow2_pos(power);
            assert(q >= HIDDEN_BIT) by (nonlinear_arith)
                requires
                    q == c * significand,
                    c >= 1,
                    significand >= HIDDEN_BIT,
            ;
            assert(rounded * pow2(power) >= rounded) by (nonlinear_arith)
                requires
                    rounded >= 0,
                    pow2(power) >= 1,
            ;
        }
        255
    } else {
        let shift = if exponent == 0 {
            1074
        } else {
            1075 - exponent
        };
        let whole = shift_down(rounded, shift);
        if whole >= 255 {
            255
        } else {
            whole as u8
        }
    }
}

/// A product of two channels fits a channel and is no brighter than either
/// factor.
pub proof fn lemma_product_bounds(a: u8, b: u8)
    ensures
        0 <= a * b <= 255 * 255,
        (a * b) / 255 <= a,
        (a * b) / 255 <= b,
        channel_product(a, b) == (a * b) / 255,
{
    assert(0 <= a * b <= 255 * 255) by (nonlinear_arith)
        requires
            0 <= a <= 255,
            0 <= b <= 255,
    ;
    assert(a * b <= a * 255) by (nonlinear_arith)
        requires
            0 <= a,
            0 <= b <= 255,
    ;
    assert(a * b <= 255 * b) by (nonlinear_arith)
        requires
            0 <= a <= 255,
            0 <= b,
    ;
}

/// The weight 1 leaves every channel as it is.
pub proof fn lemma_scaled_by_one(c: u8)
    ensures
        channel_scaled(c, Scalar { bits: 0x3FF0_0000_0000_0000 }) == c,
{
    let one = Scalar { bits: 0x3FF0_0000_0000_0000 };
    assert(one.exponent() == 1023);
    assert(one.significand() == HIDDEN_BIT);
    assert(one.power() == -52);
    if c != 0 {
        let q = c * one.significand();
        assert(q == c * HIDDEN_BIT);
        reveal_with_fuel(granule, 10);
        let step = granule(q);
        assert(step == 1 || step == 2 || step == 4 || step == 8 || step == 16 || step == 32
            || step == 64 || step == 128);
        assert(q % step == 0);
        assert(round_half_even(q, step) == q);
        vstd::arithmetic::power2::lemma2_to64_rest();
        assert(pow2(52) == HIDDEN_BIT);
        assert(q / (HIDDEN_BIT as int) == c);
    }
}

/// A weight that is not above zero leaves nothing of any channel.
pub proof fn lemma_scaled_by_nothing(c: u8, k: Scalar)
    requires
        !k.spec_is_positive(),
    ensures
        channel_scaled(c, k) == 0,
{
    if !k.spec_is_nan() && !k.sign() && c != 0 {
        assert(k.magnitude() == 0);
        assert(k.significand() == 0);
        assert(c * 0 == 0);
        assert(granule(0) == 1);
        lemma_pow2_pos(1074);
    }
}

/// A weight of at most 1 never brightens a channel.
pub proof fn lemma_scaled_by_at_most_one(c: u8, k: Scalar)
    requires
        k.spec_le(Scalar { bits: 0x3FF0_0000_0000_0000 }),
    ensures
        channel_scaled(c, k) <= c,
{
    let one = Scalar { bits: 0x3FF0_0000_0000_0000 };
    if k.sign() || c == 0 {
    } else if k.bits == one.bits {
        lemma_scaled_by_one(c);
    } else {
        // below 1: the significand is shifted down by 53 bits or more
        assert(k.magnitude() < 0x3FF0_0000_0000_0000);
        assert(k.exponent() <= 1022);
        let shift = (-k.power()) as nat;
        assert(shift >= 53);
        let q = c * k.significand();
        assert(0 <= q < c * (2 * HIDDEN_BIT)) by (nonlinear_arith)
            requires
                q == c * k.significand(),
                1 <= c,
                0 <= k.significand() < 2 * HIDDEN_BIT,
        ;
        reveal_with_fuel(granule, 10);
        let step = granule(q);
        assert(1 <= step <= 256);
        lemma_fundamental_div_mod(q, step);
        lemma_mod_bound(q, step);
        assert((q / step) * step == step * (q / step)) by (nonlinear_arith);
        assert((q / step + 1) * step == (q / step) * step + step) by (nonlinear_arith);
        let rounded = round_half_even(q, step);
        assert(0 <= rounded <= q + 256);
        vstd::arithmetic::power2::lemma2_to64_rest();
        if shift > 53 {
            vstd::arithmetic::power2::lemma_pow2_strictly_increases(53, shift);
        }
        assert(rounded < pow2(shift) * (c + 1)) by (nonlinear_arith)
            requires
                rounded <= q + 256,
                q < c * (2 * HIDDEN_BIT),
                pow2(shift) >= 2 * HIDDEN_BIT,
                c >= 1,
        ;
        vstd::arithmetic::div_mod::lemma_multiply_divide_lt(
            rounded,
            pow2(shift) as int,
            c + 1,
        );
        vstd::arithmetic::div_mod::lemma_div_pos_is_pos(rounded, pow2(shift) as int);
    }
}

} // verus!
