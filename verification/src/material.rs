//! The three Phong colors of a surface, and blending of bare channel triples.

use crate::color::{
    add_channel, channel_product, channel_scaled, channel_sum, mul_channel, scale_channel,
};
use crate::light::{added, dimmed, multiplied, scaled, white};
use crate::pixel::{map2_channels, map_channels};
use crate::scalar::Scalar;
use vstd::prelude::*;

verus! {

/// The share of a color that a surface shows without any light on it: 0.3,
/// as a binary64 number.
pub const AMBIENT_FACTOR: u64 = 0x3FD3_3333_3333_3333;

/// The exponent of the specular highlight: 16, as a binary64 number.
pub const SHININESS: u64 = 0x4030_0000_0000_0000;

/// The color of a shape at a point, as the three colors that Phong shading
/// needs, derived from the shape's own color.
#[derive(Clone, Copy, PartialEq, Eq, Debug)]
pub struct Color {
    ambient: [u8; 3],
    diffuse: [u8; 3],
    specular: [u8; 3],
}

/// A [`Color`] as the contracts speak of it.
pub struct ColorView {
    pub ambient: Seq<u8>,
    pub diffuse: Seq<u8>,
    pub specular: Seq<u8>,
}

impl View for Color {
    type V = ColorView;

    closed spec fn view(&self) -> ColorView {
        ColorView { ambient: self.ambient@, diffuse: self.diffuse@, specular: self.specular@ }
    }
}

impl Color {
    /// The Phong colors of a shape of the color `color`: it scatters `color`,
    /// shows `color` scaled by the ambient factor without light, and has white
    /// highlights.
    pub fn new(color: [u8; 3]) -> (c: Color)
        ensures
            c@ == (ColorView { ambient: dimmed(color@), diffuse: color@, specular: white() }),
    {
        let ambient = modulate_scalar(color, Scalar::from_bits(AMBIENT_FACTOR));
        let specular: [u8; 3] = [255, 255, 255];
        assert(specular@ =~= white());
        Color { ambient, diffuse: color, specular }
    }

    /// The color shown without any light.
    pub fn ambient(&self) -> (color: [u8; 3])
        ensures
            color@ == self@.ambient,
    {
        self.ambient
    }

    /// The color that is scattered.
    pub fn diffuse(&self) -> (color: [u8; 3])
        ensures
            color@ == self@.diffuse,
    {
        self.diffuse
    }

    /// The color of the highlights.
    pub fn specular(&self) -> (color: [u8; 3])
        ensures
            color@ == self@.specular,
    {
        self.specular
    }

    /// The exponent of the highlights, the same for every color.
    pub fn shininess(&self) -> (exponent: Scalar)
        ensures
            exponent.bits == SHININESS,
    {
        Scalar::from_bits(SHININESS)
    }
}

/// Modulates a color by the weight `amount`: every channel is scaled by it
/// in double precision, cut to an integer and cut off at 0 and at 255.
pub fn modulate_scalar(color: [u8; 3], amount: Scalar) -> (modulated: [u8; 3])
    ensures
        modulated@ == scaled(color@, amount),
{
    let modulated = map_channels(
        &color,
        |a: u8| -> (c: u8) ensures c == channel_scaled(a, amount) { scale_channel(a, amount) },
    );
    assert(modulated@ =~= scaled(color@, amount));
    modulated
}

/// Blends two colors by adding each channel, cut off at 255.
pub fn blend_add(color1: [u8; 3], color2: [u8; 3]) -> (blend: [u8; 3])
    ensures
        blend@ == added(color1@, color2@),
{
    let blend = map2_channels(
        &color1,
        &color2,
        |a: u8, b: u8| -> (c: u8) ensures c == channel_sum(a, b) { add_channel(a, b) },
    );
    assert(blend@ =~= added(color1@, color2@));
    blend
}

/// Blends two colors by multiplying each channel, taken as a fraction of
/// 255.
pub fn blend_mult(color1: [u8; 3], color2: [u8; 3]) -> (blend: [u8; 3])
    ensures
        blend@ == multiplied(color1@, color2@),
{
    let blend = map2_channels(
        &color1,
        &color2,
        |a: u8, b: u8| -> (c: u8) ensures c == channel_product(a, b) { mul_channel(a, b) },
    );
    assert(blend@ =~= multiplied(color1@, color2@));
    blend
}

} // verus!
