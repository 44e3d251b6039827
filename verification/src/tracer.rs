//! Choosing the nearest hit, and putting the color of a ray together.

use crate::color::saturate;
use crate::light::{
    is_shadow_trace, lemma_shadow_trace_is_bounded, scaled, Material, MaterialView, Rgb,
    MAX_SHADOW_DEPTH,
};
use crate::scalar::Scalar;
use vstd::prelude::*;

verus! {

/// The deepest level of reflected and transmitted rays. A ray at this level
/// is shaded locally and sends out no further rays.
pub const MAX_DEPTH: u8 = 5;

/// Where a ray meets a shape: how far along the ray, and which shape. The
/// shape is named by its handle, its place among the shapes of the scene.
#[derive(Clone, Copy, Debug)]
pub struct Intersect {
    pub distance: Scalar,
    pub shape: usize,
}

/// What a ray shows that meets no shape.
#[derive(Clone, Copy, Debug)]
pub struct Background {
    pub color: Rgb,
}

/// Whether a hit can be the one a ray sees: it lies at a distance that is
/// `>= 0.0`, and not on the shape the ray set out from.
pub open spec fn eligible(hit: Intersect, exclude: Option<usize>) -> bool {
    hit.distance.spec_is_non_negative() && exclude != Some(hit.shape)
}

/// Whether `hits[k]` is the hit a ray sees: it is eligible, no eligible hit
/// is nearer, and every eligible hit before it is further away.
pub open spec fn is_nearest(hits: Seq<Intersect>, exclude: Option<usize>, k: int) -> bool {
    &&& 0 <= k < hits.len()
    &&& eligible(hits[k], exclude)
    &&& forall|j: int|
        0 <= j < hits.len() && eligible(#[trigger] hits[j], exclude) ==> hits[k].distance.spec_le(
            hits[j].distance,
        )
    &&& forall|j: int|
        0 <= j < k && eligible(#[trigger] hits[j], exclude) ==> hits[k].distance.spec_lt(
            hits[j].distance,
        )
}

/// Of all the hits of one ray, selects the nearest that is in front of the
/// ray's origin and not on the shape `exclude`. Of several at the same
/// distance it selects the first. Returns its position in `hits`, or `None`
/// if no hit qualifies.
pub fn shape_intersect(hits: &Vec<Intersect>, exclude: Option<usize>) -> (nearest: Option<usize>)
    ensures
        match nearest {
            Some(k) => is_nearest(hits@, exclude, k as int),
            None => forall|j: int| 0 <= j < hits.len() ==> !eligible(#[trigger] hits[j], exclude),
        },
{
    let mut nearest: Option<usize> = None;
    let mut j: usize = 0;
    while j < hits.len()
        invariant
            0 <= j <= hits.len(),
            match nearest {
                Some(k) => k < j && is_nearest(hits@.take(j as int), exclude, k as int),
                None => forall|i: int| 0 <= i < j ==> !eligible(#[trigger] hits[i], exclude),
            },
        decreases hits.len() - j,
    {
        let hit = &hits[j];
        let ghost seen = hits@.take(j as int);
        let ghost next = hits@.take(j as int + 1);
        let excluded = match exclude {
            Some(e) => e == hit.shape,
            None => false,
        };
        let counts = !excluded && hit.distance.is_non_negative();
        assert(counts == eligible(*hit, exclude));
        match nearest {
            None => {
                if counts {
                    nearest = Some(j);
                    assert(is_nearest(next, exclude, j as int)) by {
                        assert forall|i: int| 0 <= i < next.len() && eligible(#[trigger] next[i], exclude)
                            implies next[j as int].distance.spec_le(next[i].distance) by {
                            if i < j {
                                assert(next[i] == hits[i]);
                            }
                        }
                        assert forall|i: int| 0 <= i < j && eligible(#[trigger] next[i], exclude)
                            implies next[j as int].distance.spec_lt(next[i].distance) by {
                            assert(next[i] == hits[i]);
                        }
                    }
                } else {
                    assert forall|i: int| 0 <= i < j + 1 implies !eligible(#[trigger] hits[i], exclude) by {}
                }
            },
            Some(k) => {
                let best = &hits[k];
                assert(seen[k as int] == hits[k as int]);
                if counts && hit.distance.lt(&best.distance) {
                    nearest = Some(j);
                    assert(is_nearest(next, exclude, j as int)) by {
                        assert forall|i: int| 0 <= i < next.len() && eligible(#[trigger] next[i], exclude)
                            implies next[j as int].distance.spec_le(next[i].distance) by {
                            if i < j {
                                assert(seen[i] == next[i]);
                            }
                        }
                        assert forall|i: int| 0 <= i < j && eligible(#[trigger] next[i], exclude)
                            implies next[j as int].distance.spec_lt(next[i].distance) by {
                            assert(seen[i] == next[i]);
                        }
                    }
                } else {
                    assert(is_nearest(next, exclude, k as int)) by {
                        assert(next[k as int] == seen[k as int]);
                        assert forall|i: int| 0 <= i < next.len() && eligible(#[trigger] next[i], exclude)
                            implies next[k as int].distance.spec_le(next[i].distance) by {
                            if i < j {
                                assert(seen[i] == next[i]);
                            }
                        }
                        assert forall|i: int| 0 <= i < k && eligible(#[trigger] next[i], exclude)
                            implies next[k as int].distance.spec_lt(next[i].distance) by {
                            assert(seen[i] == next[i]);
                        }
                    }
                }
            },
        }
        j = j + 1;
    }
    assert(hits@.take(j as int) =~= hits@);
    nearest
}

/// At most one hit is the nearest: ties go to the first.
pub proof fn lemma_nearest_is_unique(hits: Seq<Intersect>, exclude: Option<usize>, k1: int, k2: int)
    requires
        is_nearest(hits, exclude, k1),
        is_nearest(hits, exclude, k2),
    ensures
        k1 == k2,
{
    if k1 < k2 {
        assert(eligible(hits[k1], exclude));
        assert(hits[k2].distance.spec_lt(hits[k1].distance));
        assert(hits[k1].distance.spec_le(hits[k2].distance));
    } else if k2 < k1 {
        assert(eligible(hits[k2], exclude));
        assert(hits[k1].distance.spec_lt(hits[k2].distance));
        assert(hits[k2].distance.spec_le(hits[k1].distance));
    }
}

/// Which hit is the nearest does not depend on the order of the hits, up to
/// hits at the same distance: in two lists that hold the same hits, the
/// nearest of one is as near as the nearest of the other.
pub proof fn lemma_nearest_ignores_order(
    a: Seq<Intersect>,
    b: Seq<Intersect>,
    exclude: Option<usize>,
    ka: int,
    kb: int,
)
    requires
        a.to_multiset() == b.to_multiset(),
        is_nearest(a, exclude, ka),
        is_nearest(b, exclude, kb),
    ensures
        a[ka].distance.spec_le(b[kb].distance),
        b[kb].distance.spec_le(a[ka].distance),
{
    a.to_multiset_ensures();
    b.to_multiset_ensures();
    assert(a.contains(a[ka]));
    assert(b.contains(b[kb]));
    assert(b.to_multiset().count(a[ka]) > 0);
    assert(a.to_multiset().count(b[kb]) > 0);
    let ja = choose|j: int| 0 <= j < a.len() && a[j] == b[kb];
    let jb = choose|j: int| 0 <= j < b.len() && b[j] == a[ka];
    assert(eligible(a[ja], exclude));
    assert(eligible(b[jb], exclude));
}

/// The level at which a ray that leaves a surface at level `depth` is
/// traced, for a surface whose weight for such rays is `weight`: one level
/// deeper, as long as the surface sends out such rays at all and `depth` is
/// below the cap.
pub open spec fn deeper(weight: Scalar, depth: u8) -> Option<u8> {
    if depth < MAX_DEPTH && weight.spec_is_positive() {
        Some((depth + 1) as u8)
    } else {
        None
    }
}

/// Decides whether a ray that met `material` at level `depth` sends out a
/// reflected ray, and at which level that ray is traced.
pub fn reflect(material: &Material, depth: u8) -> (level: Option<u8>)
    ensures
        level == deeper(material@.reflection, depth),
{
    if depth < MAX_DEPTH && material.reflection().is_positive() {
        Some(depth + 1)
    } else {
        None
    }
}

/// Decides whether a ray that met `material` at level `depth` sends out a
/// transmitted ray, and at which level that ray is traced.
pub fn transmit(material: &Material, depth: u8) -> (level: Option<u8>)
    ensures
        level == deeper(material@.transmission, depth),
{
    if depth < MAX_DEPTH && material.transmission().is_positive() {
        Some(depth + 1)
    } else {
        None
    }
}

/// On which side of a surface a ray arrives.
#[derive(Clone, Copy, Debug, PartialEq, Eq)]
pub enum Crossing {
    /// From outside, against the normal: the ray enters the shape.
    Entering,
    /// From inside, along the normal: the ray leaves the shape.
    Exiting,
}

/// Decides on which side of a surface a ray arrives. `facing` is the dot
/// product of the ray's direction, reversed, and the surface normal: the ray
/// leaves the shape exactly if it is `< 0.0`.
pub fn crossing(facing: Scalar) -> (side: Crossing)
    ensures
        side == if facing.spec_is_negative() {
            Crossing::Exiting
        } else {
            Crossing::Entering
        },
{
    if facing.is_negative() {
        Crossing::Exiting
    } else {
        Crossing::Entering
    }
}

/// What a surface does to a ray that is to pass through it.
#[derive(Clone, Copy, Debug, PartialEq, Eq)]
pub enum Bend {
    /// The ray passes, bent by Snell's law.
    Refracted,
    /// Total internal reflection: the ray is mirrored back.
    Reflected,
}

/// Decides what a surface does to a ray that is to pass through it.
/// `discriminant` is the term under the root in Snell's law: the ray is
/// mirrored exactly if it is `< 0.0`.
pub fn bend(discriminant: Scalar) -> (way: Bend)
    ensures
        way == if discriminant.spec_is_negative() {
            Bend::Reflected
        } else {
            Bend::Refracted
        },
{
    if discriminant.is_negative() {
        Bend::Reflected
    } else {
        Bend::Refracted
    }
}

/// What was found where a ray met a shape: the material there, its local
/// shading, and the colors that the reflected and the transmitted ray
/// brought back, where such a ray was sent out.
#[derive(Clone, Copy, Debug)]
pub struct Shading {
    pub material: Material,
    pub local: Rgb,
    pub reflection: Option<Rgb>,
    pub transmission: Option<Rgb>,
}

/// What a reflected or transmitted ray adds to channel `i` of the color of
/// the ray at level `depth` that sent it out: the color it brought back,
/// scaled by its weight. Nothing, if there was no such ray, or if a surface
/// of that weight sends out none at that level.
pub open spec fn global_term(color: Option<Rgb>, weight: Scalar, depth: u8, i: int) -> int {
    match color {
        Some(c) => if deeper(weight, depth) is Some {
            scaled(c@, weight)[i] as int
        } else {
            0
        },
        None => 0,
    }
}

/// The color of a ray at level `depth`: the background where it met
/// nothing, else in each channel the local shading plus what the reflected
/// and the transmitted ray add, cut off at 255.
pub open spec fn illuminated(background: Seq<u8>, shading: Option<Shading>, depth: u8) -> Seq<
    u8,
> {
    match shading {
        None => background,
        Some(s) => Seq::new(
            3,
            |i: int|
                saturate(
                    s.local@[i] + global_term(s.reflection, s.material@.reflection, depth, i)
                        + global_term(s.transmission, s.material@.transmission, depth, i),
                ),
        ),
    }
}

/// Puts the color of a ray at level `depth` together. `shading` is `None`
/// for a ray that met no shape, and else holds what was found where it met
/// one.
pub fn illuminate(background: &Background, shading: Option<Shading>, depth: u8) -> (color: Rgb)
    ensures
        color@ == illuminated(background.color@, shading, depth),
{
    match shading {
        None => background.color,
        Some(s) => {
            let mut color = s.local;
            if let Some(reflection) = s.reflection {
                if reflect(&s.material, depth).is_some() {
                    color = color.add(&reflection.scale(s.material.reflection()));
                }
            }
            if let Some(transmission) = s.transmission {
                if transmit(&s.material, depth).is_some() {
                    color = color.add(&transmission.scale(s.material.transmission()));
                }
            }
            assert(color@ =~= illuminated(background.color@, shading, depth));
            color
        },
    }
}

/// Whether `levels` can be the levels of a chain of rays, each sent out by
/// the shape that the one before met: `materials[i]` is what the ray at
/// `levels[i]` met, and the next ray is its reflected or its transmitted ray.
pub open spec fn is_trace(materials: Seq<MaterialView>, levels: Seq<u8>) -> bool {
    &&& materials.len() == levels.len()
    &&& forall|i: int|
        #![trigger levels[i]]
        0 <= i < levels.len() - 1 ==> {
            ||| deeper(materials[i].reflection, levels[i]) == Some(levels[i + 1])
            ||| deeper(materials[i].transmission, levels[i]) == Some(levels[i + 1])
        }
}

/// No chain of reflected and transmitted rays goes on forever, whatever the
/// shapes are made of: each ray runs one level below the one that sent it
/// out, and none runs below [`MAX_DEPTH`]. Two mirrors facing each other
/// make a chain of at most `MAX_DEPTH + 1` rays.
pub proof fn lemma_trace_is_bounded(materials: Seq<MaterialView>, levels: Seq<u8>)
    requires
        is_trace(materials, levels),
        levels.len() > 0,
    ensures
        forall|i: int| 0 <= i < levels.len() ==> #[trigger] levels[i] == levels[0] + i,
        levels.len() > 1 ==> levels.len() + levels[0] <= MAX_DEPTH + 1,
    decreases levels.len(),
{
    if levels.len() > 1 {
        let n = levels.len() - 1;
        let shorter_m = materials.drop_last();
        let shorter = levels.drop_last();
        assert(is_trace(shorter_m, shorter)) by {
            assert forall|i: int| 0 <= i < shorter.len() - 1 implies ({
                ||| deeper(shorter_m[i].reflection, #[trigger] shorter[i]) == Some(shorter[i + 1])
                ||| deeper(shorter_m[i].transmission, shorter[i]) == Some(shorter[i + 1])
            }) by {
                assert(shorter[i] == levels[i]);
                assert(shorter[i + 1] == levels[i + 1]);
            }
        }
        lemma_trace_is_bounded(shorter_m, shorter);
        assert(shorter[n - 1] == levels[n - 1]);
        assert(shorter[0] == levels[0]);
        assert(levels[n] == levels[n - 1] + 1);
        assert forall|i: int| 0 <= i < levels.len() implies #[trigger] levels[i] == levels[0] + i by {
            if i < n {
                assert(shorter[i] == levels[i]);
            }
        }
    }
}

/// Tracing always comes to an end. Every ray that is followed lies on a
/// path: a chain of reflected and transmitted rays down from the first ray,
/// and, from the surface the last of them met, one shadow ray that is
/// followed through transparent shapes, starting at shadow level 1 or above.
/// Whatever the scene, such a path holds at most
/// `MAX_DEPTH + 1 + MAX_SHADOW_DEPTH` rays.
pub proof fn lemma_paths_are_bounded(
    materials: Seq<MaterialView>,
    levels: Seq<u8>,
    blocking: Seq<Option<MaterialView>>,
    shadow_levels: Seq<u8>,
)
    requires
        is_trace(materials, levels),
        levels.len() > 0,
        is_shadow_trace(blocking, shadow_levels),
        shadow_levels.len() > 0 ==> shadow_levels[0] >= 1,
    ensures
        levels.len() <= MAX_DEPTH + 1,
        shadow_levels.len() <= MAX_SHADOW_DEPTH,
        levels.len() + shadow_levels.len() <= MAX_DEPTH + 1 + MAX_SHADOW_DEPTH,
{
    lemma_trace_is_bounded(materials, levels);
    if shadow_levels.len() > 0 {
        lemma_shadow_trace_is_bounded(blocking, shadow_levels);
    }
}

} // verus!
