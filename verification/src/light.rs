//! Colors, materials, and what the lights of a scene do at a surface point.

use crate::color::{
    add_channel, channel_complement, channel_product, channel_scaled, channel_sum,
    complement_channel, lemma_product_bounds, lemma_scaled_by_at_most_one,
    lemma_scaled_by_nothing, lemma_scaled_by_one, mul_channel, saturate, scale_channel,
    times_channel,
};
use crate::pixel::{map2_channels, map_channels};
use crate::scalar::Scalar;
use vstd::prelude::*;

verus! {

/// The share of a color that a surface shows without any light on it: 0.3,
/// as a binary64 number.
pub const AMBIENT_FACTOR: u64 = 0x3FD3_3333_3333_3333;

/// The exponent of the specular highlight: 20, as a binary64 number.
pub const SHININESS: u64 = 0x4034_0000_0000_0000;

/// The deepest level at which a shadow ray that met a transparent shape is
/// still followed through it.
pub const MAX_SHADOW_DEPTH: u8 = 4;

/// A color of three 8-bit channels: red, green, blue.
#[derive(Clone, Copy, PartialEq, Eq, Debug)]
pub struct Rgb {
    pub color: [u8; 3],
}

impl View for Rgb {
    type V = Seq<u8>;

    /// The three channels, red first.
    open spec fn view(&self) -> Seq<u8> {
        self.color@
    }
}

/// The channel-wise sum of two colors, each channel cut off at 255.
pub open spec fn added(a: Seq<u8>, b: Seq<u8>) -> Seq<u8> {
    Seq::new(3, |i: int| channel_sum(a[i], b[i]))
}

/// The channel-wise product of two colors, each channel taken as a fraction
/// of 255.
pub open spec fn multiplied(a: Seq<u8>, b: Seq<u8>) -> Seq<u8> {
    Seq::new(3, |i: int| channel_product(a[i], b[i]))
}

/// A color with each channel scaled by the weight `k` in double precision,
/// cut to an integer and cut off at 0 and at 255.
pub open spec fn scaled(a: Seq<u8>, k: Scalar) -> Seq<u8> {
    Seq::new(3, |i: int| channel_scaled(a[i], k))
}

/// A color with each channel multiplied by the count `n` and cut off at 255.
pub open spec fn repeated(a: Seq<u8>, n: int) -> Seq<u8> {
    Seq::new(3, |i: int| saturate(a[i] * n))
}

/// What is missing from each channel to white.
pub open spec fn complemented(a: Seq<u8>) -> Seq<u8> {
    Seq::new(3, |i: int| channel_complement(a[i]))
}

/// A color scaled by the ambient factor.
pub open spec fn dimmed(a: Seq<u8>) -> Seq<u8> {
    scaled(a, Scalar { bits: AMBIENT_FACTOR })
}

/// Black.
pub open spec fn black() -> Seq<u8> {
    seq![0u8, 0u8, 0u8]
}

/// White.
pub open spec fn white() -> Seq<u8> {
    seq![255u8, 255u8, 255u8]
}

impl Rgb {
    /// The color with the channels `data`.
    pub fn new(data: [u8; 3]) -> (c: Rgb)
        ensures
            c@ == data@,
    {
        Rgb { color: data }
    }

    /// Black: no light at all.
    pub fn black() -> (c: Rgb)
        ensures
            c@ == black(),
    {
        let c = Rgb { color: [0, 0, 0] };
        assert(c@ =~= black());
        c
    }

    /// White: the color of every highlight.
    pub fn white() -> (c: Rgb)
        ensures
            c@ == white(),
    {
        let c = Rgb { color: [255, 255, 255] };
        assert(c@ =~= white());
        c
    }

    /// Adds two colors channel by channel. A channel that would pass 255 stays
    /// at 255.
    pub fn add(&self, rhs: &Rgb) -> (sum: Rgb)
        ensures
            sum@ == added(self@, rhs@),
    {
        let color = map2_channels(
            &self.color,
            &rhs.color,
            |a: u8, b: u8| -> (c: u8) ensures c == channel_sum(a, b) { add_channel(a, b) },
        );
        assert(color@ =~= added(self@, rhs@));
        Rgb { color }
    }

    /// Multiplies two colors channel by channel, each channel taken as a
    /// fraction of 255: a surface of one color seen in light of the other.
    pub fn mul(&self, rhs: &Rgb) -> (product: Rgb)
        ensures
            product@ == multiplied(self@, rhs@),
    {
        let color = map2_channels(
            &self.color,
            &rhs.color,
            |a: u8, b: u8| -> (c: u8) ensures c == channel_product(a, b) { mul_channel(a, b) },
        );
        assert(color@ =~= multiplied(self@, rhs@));
        Rgb { color }
    }

    /// Scales every channel by the weight `rhs`, a binary64 number, as double
    /// precision does: the product is cut to an integer, a channel that would
    /// pass 255 stays at 255, and one that would be negative or no number is 0.
    pub fn scale(&self, rhs: Scalar) -> (product: Rgb)
        ensures
            product@ == scaled(self@, rhs),
    {
        let color = map_channels(
            &self.color,
            |a: u8| -> (c: u8) ensures c == channel_scaled(a, rhs) { scale_channel(a, rhs) },
        );
        assert(color@ =~= scaled(self@, rhs));
        Rgb { color }
    }

    /// Multiplies every channel by the count `rhs`. A channel that would pass
    /// 255 stays at 255.
    pub fn times(&self, rhs: u8) -> (product: Rgb)
        ensures
            product@ == repeated(self@, rhs as int),
    {
        let color = map_channels(
            &self.color,
            |a: u8| -> (c: u8) ensures c == saturate(a * rhs) { times_channel(a, rhs) },
        );
        assert(color@ =~= repeated(self@, rhs as int));
        Rgb { color }
    }

    /// What is missing from the color to white, channel by channel.
    pub fn complement(&self) -> (rest: Rgb)
        ensures
            rest@ == complemented(self@),
    {
        let color = map_channels(
            &self.color,
            |a: u8| -> (c: u8) ensures c == channel_complement(a) { complement_channel(a) },
        );
        assert(color@ =~= complemented(self@));
        Rgb { color }
    }

    /// The color scaled by the ambient factor.
    pub fn dim(&self) -> (share: Rgb)
        ensures
            share@ == dimmed(self@),
    {
        self.scale(Scalar::from_bits(AMBIENT_FACTOR))
    }
}

/// Adding colors does not depend on their order.
pub proof fn lemma_add_commutative(a: Seq<u8>, b: Seq<u8>)
    ensures
        added(a, b) == added(b, a),
{
    assert(added(a, b) =~= added(b, a));
}

/// Adding colors does not depend on how they are grouped: saturation only
/// ever cuts off what is above 255, so a channel of the sum of three colors
/// is the exact sum of the three channels, cut off at 255, either way.
pub proof fn lemma_add_associative(a: Seq<u8>, b: Seq<u8>, c: Seq<u8>)
    ensures
        added(added(a, b), c) == added(a, added(b, c)),
        forall|i: int|
            0 <= i < 3 ==> #[trigger] added(added(a, b), c)[i] == saturate(a[i] + b[i] + c[i]),
{
    assert(added(added(a, b), c) =~= added(a, added(b, c)));
}

/// A channel of a sum is the exact sum where that fits a channel and 255
/// where it does not.
pub proof fn lemma_add_saturates(a: Seq<u8>, b: Seq<u8>, i: int)
    requires
        0 <= i < 3,
    ensures
        a[i] + b[i] <= 255 ==> added(a, b)[i] == a[i] + b[i],
        a[i] + b[i] > 255 ==> added(a, b)[i] == 255,
        added(a, b)[i] >= a[i],
        added(a, b)[i] >= b[i],
{
}

/// Black added to a color leaves it as it is.
pub proof fn lemma_add_black(a: Seq<u8>)
    requires
        a.len() == 3,
    ensures
        added(a, black()) == a,
        added(black(), a) == a,
{
    assert(added(a, black()) =~= a);
    assert(added(black(), a) =~= a);
}

/// Multiplying colors does not depend on their order.
pub proof fn lemma_mul_commutative(a: Seq<u8>, b: Seq<u8>)
    ensures
        multiplied(a, b) == multiplied(b, a),
{
    assert forall|i: int| 0 <= i < 3 implies multiplied(a, b)[i] == multiplied(b, a)[i] by {
        assert(a[i] * b[i] == b[i] * a[i]) by (nonlinear_arith);
    }
    assert(multiplied(a, b) =~= multiplied(b, a));
}

/// A product is no brighter than either factor, in any channel. So a color
/// multiplied by itself again and again can only get darker.
pub proof fn lemma_mul_darkens(a: Seq<u8>, b: Seq<u8>, i: int)
    requires
        0 <= i < 3,
    ensures
        multiplied(a, b)[i] == (a[i] * b[i]) / 255,
        multiplied(a, b)[i] <= a[i],
        multiplied(a, b)[i] <= b[i],
{
    lemma_product_bounds(a[i], b[i]);
}

/// A color seen in white light is itself, and in no light it is black.
pub proof fn lemma_mul_white_and_black(a: Seq<u8>)
    requires
        a.len() == 3,
    ensures
        multiplied(a, white()) == a,
        multiplied(a, black()) == black(),
{
    assert forall|i: int| 0 <= i < 3 implies multiplied(a, white())[i] == a[i] by {
        assert((a[i] * 255) / 255 == a[i]) by (nonlinear_arith);
    }
    assert(multiplied(a, white()) =~= a);
    assert forall|i: int| 0 <= i < 3 implies multiplied(a, black())[i] == 0 by {
        assert(a[i] * 0 == 0) by (nonlinear_arith);
    }
    assert(multiplied(a, black()) =~= black());
}

/// Taking the complement twice gives the color back.
pub proof fn lemma_complement_twice(a: Seq<u8>)
    requires
        a.len() == 3,
    ensures
        complemented(complemented(a)) == a,
{
    assert(complemented(complemented(a)) =~= a);
}

/// A weight that is negative, zero or no number scales every color to
/// black, every weight scales black to black, and the weight 1 leaves every
/// color as it is.
pub proof fn lemma_scale_by_nothing_and_by_one(a: Seq<u8>, k: Scalar)
    requires
        a.len() == 3,
    ensures
        !k.spec_is_positive() ==> scaled(a, k) == black(),
        scaled(black(), k) == black(),
        scaled(a, Scalar { bits: 0x3FF0_0000_0000_0000 }) == a,
{
    if !k.spec_is_positive() {
        assert forall|i: int| 0 <= i < 3 implies scaled(a, k)[i] == 0 by {
            lemma_scaled_by_nothing(a[i], k);
        }
        assert(scaled(a, k) =~= black());
    }
    assert(scaled(black(), k) =~= black());
    assert forall|i: int| 0 <= i < 3 implies scaled(a, Scalar { bits: 0x3FF0_0000_0000_0000 })[i]
        == a[i] by {
        lemma_scaled_by_one(a[i]);
    }
    assert(scaled(a, Scalar { bits: 0x3FF0_0000_0000_0000 }) =~= a);
}

/// A weight of at most 1 never brightens a color, in any channel.
pub proof fn lemma_scale_darkens(a: Seq<u8>, k: Scalar, i: int)
    requires
        0 <= i < 3,
        k.spec_le(Scalar { bits: 0x3FF0_0000_0000_0000 }),
    ensures
        scaled(a, k)[i] <= a[i],
{
    lemma_scaled_by_at_most_one(a[i], k);
}

/// What a surface is made of: its three Phong colors, the weights of the
/// three Phong terms, how much it mirrors, how much light it lets through,
/// and how strongly it bends that light.
#[derive(Clone, Copy, Debug)]
pub struct Material {
    ambient: Rgb,
    diffuse: Rgb,
    specular: Rgb,
    k_a: Scalar,
    k_d: Scalar,
    k_s: Scalar,
    reflection: Scalar,
    transmission: Scalar,
    refraction_index: Scalar,
}

/// A material as the contracts speak of it.
pub struct MaterialView {
    pub ambient: Seq<u8>,
    pub diffuse: Seq<u8>,
    pub specular: Seq<u8>,
    pub k_a: Scalar,
    pub k_d: Scalar,
    pub k_s: Scalar,
    pub reflection: Scalar,
    pub transmission: Scalar,
    pub refraction_index: Scalar,
}

impl View for Material {
    type V = MaterialView;

    closed spec fn view(&self) -> MaterialView {
        MaterialView {
            ambient: self.ambient@,
            diffuse: self.diffuse@,
            specular: self.specular@,
            k_a: self.k_a,
            k_d: self.k_d,
            k_s: self.k_s,
            reflection: self.reflection,
            transmission: self.transmission,
            refraction_index: self.refraction_index,
        }
    }
}

impl Material {
    /// A material of the base color `color`. Its diffuse color is `color`,
    /// its ambient color is `color` scaled by the ambient factor, its
    /// highlights are white. `phong_constants` are the weights of the
    /// ambient, diffuse and specular terms, in that order.
    pub fn new(
        color: Rgb,
        phong_constants: (Scalar, Scalar, Scalar),
        reflection: Scalar,
        transmission: Scalar,
        refraction_index: Scalar,
    ) -> (material: Material)
        ensures
            material@ == (MaterialView {
                ambient: dimmed(color@),
                diffuse: color@,
                specular: white(),
                k_a: phong_constants.0,
                k_d: phong_constants.1,
                k_s: phong_constants.2,
                reflection,
                transmission,
                refraction_index,
            }),
    {
        let (k_a, k_d, k_s) = phong_constants;
        Material {
            ambient: color.dim(),
            diffuse: color,
            specular: Rgb::white(),
            k_a,
            k_d,
            k_s,
            reflection,
            transmission,
            refraction_index,
        }
    }

    /// The color the surface shows without any light on it.
    pub fn ambient(&self) -> (color: &Rgb)
        ensures
            color@ == self@.ambient,
    {
        &self.ambient
    }

    /// The color the surface scatters.
    pub fn diffuse(&self) -> (color: &Rgb)
        ensures
            color@ == self@.diffuse,
    {
        &self.diffuse
    }

    /// The color of the surface's highlights.
    pub fn specular(&self) -> (color: &Rgb)
        ensures
            color@ == self@.specular,
    {
        &self.specular
    }

    /// The exponent of the highlights, the same for every material.
    pub fn specular_exponent(&self) -> (exponent: Scalar)
        ensures
            exponent.bits == SHININESS,
    {
        Scalar::from_bits(SHININESS)
    }

    /// How much of what the surface mirrors is added to its color.
    pub fn reflection(&self) -> (k_r: Scalar)
        ensures
            k_r == self@.reflection,
    {
        self.reflection
    }

    /// How much of what shines through the surface is added to its color.
    pub fn transmission(&self) -> (k_t: Scalar)
        ensures
            k_t == self@.transmission,
    {
        self.transmission
    }

    /// How strongly the material bends light, against air at 1.
    pub fn refraction_index(&self) -> (index: Scalar)
        ensures
            index == self@.refraction_index,
    {
        self.refraction_index
    }

    /// The weights of the ambient, diffuse and specular terms.
    pub fn phong_constants(&self) -> (k: (Scalar, Scalar, Scalar))
        ensures
            k == (self@.k_a, self@.k_d, self@.k_s),
    {
        (self.k_a, self.k_d, self.k_s)
    }
}

/// One light as it is seen from a surface point, with the geometry already
/// worked out.
#[derive(Clone, Copy, Debug)]
pub struct Lighting {
    /// The color with which the light arrives at the point, after whatever
    /// is in its way.
    pub color: Rgb,
    /// The cosine between the surface normal and the direction to the light.
    pub diffuse_dot: Scalar,
    /// The cosine between the mirrored light direction and the direction to
    /// the viewer.
    pub specular_dot: Scalar,
    /// `specular_dot` raised to the shininess.
    pub highlight: Scalar,
}

/// The ambient term of a material: its ambient color, scaled by the ambient
/// factor and then by the weight `k_a`.
pub open spec fn ambient_term(material: MaterialView) -> Seq<u8> {
    scaled(dimmed(material.ambient), material.k_a)
}

/// The diffuse term of a material in one light: its diffuse color in that
/// light, scaled by the cosine to the light and then by the weight `k_d`.
pub open spec fn diffuse_term(material: MaterialView, light: Lighting) -> Seq<u8> {
    scaled(scaled(multiplied(material.diffuse, light.color@), light.diffuse_dot), material.k_d)
}

/// The specular term of a material in one light: its highlight color in
/// that light, scaled by the highlight and then by the weight `k_s`.
pub open spec fn specular_term(material: MaterialView, light: Lighting) -> Seq<u8> {
    scaled(scaled(multiplied(material.specular, light.color@), light.highlight), material.k_s)
}

/// What one light adds to channel `i`, before any cut-off: the diffuse term
/// if the surface faces the light, and the specular term if the mirrored
/// light points toward the viewer.
pub open spec fn share(material: MaterialView, light: Lighting, i: int) -> int {
    (if light.diffuse_dot.spec_is_positive() {
        diffuse_term(material, light)[i] as int
    } else {
        0
    }) + (if light.specular_dot.spec_is_positive() {
        specular_term(material, light)[i] as int
    } else {
        0
    })
}

/// What all of `lights` add to channel `i`, before any cut-off.
pub open spec fn total_share(material: MaterialView, lights: Seq<Lighting>, i: int) -> int
    decreases lights.len(),
{
    if lights.len() == 0 {
        0
    } else {
        total_share(material, lights.drop_last(), i) + share(material, lights.last(), i)
    }
}

/// The locally shaded color: in each channel the ambient term plus what the
/// lights add, cut off at 255.
pub open spec fn shaded(material: MaterialView, lights: Seq<Lighting>) -> Seq<u8> {
    Seq::new(3, |i: int| saturate(ambient_term(material)[i] + total_share(material, lights, i)))
}

/// Phong shading of a surface point: the ambient term of its material, and
/// for each light the diffuse term where the surface faces it and the
/// specular term where the mirrored light points toward the viewer, all
/// added up.
pub fn phong(material: &Material, lights: &Vec<Lighting>) -> (color: Rgb)
    ensures
        color@ == shaded(material@, lights@),
{
    let (k_a, k_d, k_s) = material.phong_constants();
    let mut color = material.ambient().dim().scale(k_a);
    assert(color@ =~= shaded(material@, lights@.take(0)));
    let mut k: usize = 0;
    while k < lights.len()
        invariant
            0 <= k <= lights.len(),
            color@ == shaded(material@, lights@.take(k as int)),
            k_d == material@.k_d,
            k_s == material@.k_s,
        decreases lights.len() - k,
    {
        let light = &lights[k];
        if light.diffuse_dot.is_positive() {
            let diffuse = material.diffuse().mul(&light.color).scale(light.diffuse_dot).scale(k_d);
            color = color.add(&diffuse);
        }
        if light.specular_dot.is_positive() {
            let specular = material.specular().mul(&light.color).scale(light.highlight).scale(
                k_s,
            );
            color = color.add(&specular);
        }
        proof {
            let seen = lights@.take(k as int);
            let next = lights@.take(k as int + 1);
            assert(next.drop_last() =~= seen);
            assert(next.last() == lights@[k as int]);
            lemma_total_share_bounds(material@, seen);
            assert(color@ =~= shaded(material@, next));
        }
        k = k + 1;
    }
    assert(lights@.take(k as int) =~= lights@);
    color
}

/// No light takes anything away: every share is at least 0.
pub proof fn lemma_total_share_bounds(material: MaterialView, lights: Seq<Lighting>)
    ensures
        forall|i: int| 0 <= #[trigger] total_share(material, lights, i),
    decreases lights.len(),
{
    if lights.len() > 0 {
        lemma_total_share_bounds(material, lights.drop_last());
        assert forall|i: int| 0 <= #[trigger] total_share(material, lights, i) by {
            assert(0 <= total_share(material, lights.drop_last(), i));
        }
    }
}

/// Taking one light out of `lights` takes its share out of the total.
proof fn lemma_total_share_remove(material: MaterialView, lights: Seq<Lighting>, j: int, i: int)
    requires
        0 <= j < lights.len(),
    ensures
        total_share(material, lights, i) == total_share(material, lights.remove(j), i) + share(
            material,
            lights[j],
            i,
        ),
    decreases lights.len(),
{
    let n = lights.len() - 1;
    if j == n {
        assert(lights.remove(j) =~= lights.drop_last());
    } else {
        let front = lights.drop_last();
        lemma_total_share_remove(material, front, j, i);
        assert(front.remove(j) =~= lights.remove(j).drop_last());
        assert(lights.remove(j).last() == lights.last());
        assert(front[j] == lights[j]);
    }
}

/// The lights of a scene are summed, so the order in which they are listed
/// does not change the shading: two lists that hold the same lights, each
/// as often in one as in the other, shade alike.
pub proof fn lemma_shading_ignores_order(
    material: MaterialView,
    a: Seq<Lighting>,
    b: Seq<Lighting>,
)
    requires
        a.to_multiset() == b.to_multiset(),
    ensures
        forall|i: int| total_share(material, a, i) == total_share(material, b, i),
        shaded(material, a) == shaded(material, b),
    decreases a.len(),
{
    a.to_multiset_ensures();
    b.to_multiset_ensures();
    if a.len() == 0 {
        assert(b.len() == 0);
    } else {
        let last = a.last();
        let front = a.drop_last();
        assert(a =~= front.push(last));
        front.to_multiset_ensures();
        assert(a.to_multiset().count(last) > 0);
        assert(b.contains(last));
        let j = choose|j: int| 0 <= j < b.len() && b[j] == last;
        let rest = b.remove(j);
        assert(rest.to_multiset() =~= front.to_multiset());
        lemma_shading_ignores_order(material, front, rest);
        assert forall|i: int| total_share(material, a, i) == total_share(material, b, i) by {
            lemma_total_share_remove(material, b, j, i);
        }
    }
    assert(shaded(material, a) =~= shaded(material, b));
}

/// The color that a shape gives to the light that passes it: white where
/// the shape scatters nothing, and nearer to its own diffuse color the more
/// it scatters.
pub open spec fn attenuation(material: MaterialView) -> Seq<u8> {
    complemented(scaled(complemented(material.diffuse), material.k_d))
}

/// The level at which a shadow ray at shadow level `depth` goes on behind
/// the shape it met first: one level deeper, if that shape lets light through
/// and `depth` is below the cap. `None` if the ray ends here, or met nothing.
pub open spec fn shadow_passes(blocking: Option<MaterialView>, depth: u8) -> Option<u8> {
    match blocking {
        Some(material) => if material.transmission.spec_is_positive() && depth
            < MAX_SHADOW_DEPTH {
            Some((depth + 1) as u8)
        } else {
            None
        },
        None => None,
    }
}

/// The color with which a light arrives whose shadow ray ends at the shape
/// it met first: the light's own color if it met nothing, black behind an
/// opaque shape, and behind a transparent one the shape's attenuation,
/// scaled by its transmission.
pub open spec fn shadow_color(light: Seq<u8>, blocking: Option<MaterialView>) -> Seq<u8> {
    match blocking {
        None => light,
        Some(material) => if material.transmission.spec_is_positive() {
            scaled(attenuation(material), material.transmission)
        } else {
            black()
        },
    }
}

/// The color with which a light arrives through a transparent shape, when
/// it arrives with the color `behind` at the far side: the shape's
/// attenuation times `behind`, scaled by the shape's transmission.
pub open spec fn shone_through(material: MaterialView, behind: Seq<u8>) -> Seq<u8> {
    scaled(multiplied(attenuation(material), behind), material.transmission)
}

/// What a shape gives to the light that passes it lies between the shape's
/// diffuse color and white, as long as the shape's diffuse weight is at most
/// 1. And a transparent shape whose transmission is at most 1 never lets
/// more of a light through than arrives behind it.
pub proof fn lemma_shadows_dim(material: MaterialView, behind: Seq<u8>, i: int)
    requires
        0 <= i < 3,
    ensures
        material.k_d.spec_le(Scalar { bits: 0x3FF0_0000_0000_0000 }) ==> attenuation(material)[i]
            >= material.diffuse[i],
        material.transmission.spec_le(Scalar { bits: 0x3FF0_0000_0000_0000 }) ==> shone_through(
            material,
            behind,
        )[i] <= behind[i],
{
    let one = Scalar { bits: 0x3FF0_0000_0000_0000 };
    if material.k_d.spec_le(one) {
        lemma_scale_darkens(complemented(material.diffuse), material.k_d, i);
    }
    if material.transmission.spec_le(one) {
        let lit = multiplied(attenuation(material), behind);
        lemma_mul_darkens(attenuation(material), behind, i);
        lemma_scale_darkens(lit, material.transmission, i);
    }
}

/// What becomes of a light on its way to a surface point.
#[derive(Clone, Copy, Debug, PartialEq, Eq)]
pub enum Shadow {
    /// The light arrives with this color.
    Light(Rgb),
    /// A transparent shape is in the way, and the shadow ray is to be
    /// followed through it, at shadow level `depth`. What arrives is then
    /// told by [`shine_through`].
    Through { depth: u8 },
}

/// Decides what a shadow ray at shadow level `depth` makes of the first
/// shape between a surface point and a light of the color `light`.
/// `blocking` is that shape's material, or `None` if the way to the light is
/// free.
pub fn trace_shadow(light: &Rgb, blocking: Option<&Material>, depth: u8) -> (shadow: Shadow)
    ensures
        match shadow {
            Shadow::Through { depth: deeper } => shadow_passes(blocking_view(blocking), depth)
                == Some(deeper),
            Shadow::Light(color) => shadow_passes(blocking_view(blocking), depth) is None
                && color@ == shadow_color(light@, blocking_view(blocking)),
        },
{
    match blocking {
        None => Shadow::Light(*light),
        Some(material) => {
            let k_t = material.transmission();
            if !k_t.is_positive() {
                Shadow::Light(Rgb::black())
            } else if depth < MAX_SHADOW_DEPTH {
                Shadow::Through { depth: depth + 1 }
            } else {
                Shadow::Light(tint(material).scale(k_t))
            }
        },
    }
}

/// The material that `blocking` holds, if any, as the contracts speak of
/// it.
pub open spec fn blocking_view(blocking: Option<&Material>) -> Option<MaterialView> {
    match blocking {
        Some(material) => Some(material@),
        None => None,
    }
}

/// Computes the [`attenuation`] of a material.
pub fn tint(material: &Material) -> (color: Rgb)
    ensures
        color@ == attenuation(material@),
{
    let (_, k_d, _) = material.phong_constants();
    material.diffuse().complement().scale(k_d).complement()
}

/// The color with which a light arrives through the transparent shape of
/// the material `blocking`, when it arrives with the color `behind` at the
/// far side of that shape.
pub fn shine_through(blocking: &Material, behind: &Rgb) -> (color: Rgb)
    ensures
        color@ == shone_through(blocking@, behind@),
{
    tint(blocking).mul(behind).scale(blocking.transmission())
}

/// Whether `levels` can be the shadow levels of one shadow ray as it is
/// followed through shape after shape: `blocking[i]` is what the ray met at
/// `levels[i]`, and it was followed through it to the next level.
pub open spec fn is_shadow_trace(blocking: Seq<Option<MaterialView>>, levels: Seq<u8>) -> bool {
    &&& blocking.len() == levels.len()
    &&& forall|i: int|
        #![trigger levels[i]]
        0 <= i < levels.len() - 1 ==> shadow_passes(blocking[i], levels[i]) == Some(
            levels[i + 1],
        )
}

/// No shadow ray is followed forever, however many transparent shapes lie
/// between a surface and a light: each step through a shape is one level
/// deeper, and at [`MAX_SHADOW_DEPTH`] no further step is made.
pub proof fn lemma_shadow_trace_is_bounded(blocking: Seq<Option<MaterialView>>, levels: Seq<u8>)
    requires
        is_shadow_trace(blocking, levels),
        levels.len() > 0,
    ensures
        forall|i: int| 0 <= i < levels.len() ==> #[trigger] levels[i] == levels[0] + i,
        levels.len() > 1 ==> levels.len() + levels[0] <= MAX_SHADOW_DEPTH + 1,
    decreases levels.len(),
{
    if levels.len() > 1 {
        let n = levels.len() - 1;
        let shorter_b = blocking.drop_last();
        let shorter = levels.drop_last();
        assert(is_shadow_trace(shorter_b, shorter)) by {
            assert forall|i: int| 0 <= i < shorter.len() - 1 implies shadow_passes(
                shorter_b[i],
                #[trigger] shorter[i],
            ) == Some(shorter[i + 1]) by {
                assert(shorter[i] == levels[i]);
                assert(shorter[i + 1] == levels[i + 1]);
            }
        }
        lemma_shadow_trace_is_bounded(shorter_b, shorter);
        assert(shorter[n - 1] == levels[n - 1]);
        assert(shorter[0] == levels[0]);
        assert(shadow_passes(blocking[n - 1], levels[n - 1]) == Some(levels[n]));
        assert forall|i: int| 0 <= i < levels.len() implies #[trigger] levels[i] == levels[0] + i by {
            if i < n {
                assert(shorter[i] == levels[i]);
            }
        }
    }
}

} // verus!
