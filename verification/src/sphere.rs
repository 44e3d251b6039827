//! Which root of the sphere equation a ray sees.

use crate::scalar::Scalar;
use vstd::prelude::*;

verus! {

/// The distance at which a ray meets a sphere, from what the quadratic
/// `|O + tD - C|^2 = r^2` gave: its discriminant and its two roots. With a
/// discriminant `< 0.0` the ray misses the sphere. Else the ray sees the
/// nearer of the roots that are `>= 0.0`, the first of two equal ones, and
/// nothing if neither is: the sphere is then behind the ray, or the numbers
/// are no numbers.
pub open spec fn visible_root(discriminant: Scalar, first: Scalar, second: Scalar) -> Option<
    Scalar,
> {
    if discriminant.spec_is_negative() {
        None
    } else if first.spec_is_non_negative() && second.spec_is_non_negative() {
        if second.spec_lt(first) {
            Some(second)
        } else {
            Some(first)
        }
    } else if first.spec_is_non_negative() {
        Some(first)
    } else if second.spec_is_non_negative() {
        Some(second)
    } else {
        None
    }
}

/// Decides whether a ray meets a sphere, and at which distance, from the
/// discriminant and the two roots of the sphere equation.
pub fn intersect(discriminant: Scalar, first: Scalar, second: Scalar) -> (distance: Option<Scalar>)
    ensures
        distance == visible_root(discriminant, first, second),
{
    if discriminant.is_negative() {
        None
    } else if first.is_non_negative() && second.is_non_negative() {
        if second.lt(&first) {
            Some(second)
        } else {
            Some(first)
        }
    } else if first.is_non_negative() {
        Some(first)
    } else if second.is_non_negative() {
        Some(second)
    } else {
        None
    }
}

/// What a ray sees of a sphere is one of the two roots, in front of the ray,
/// and no root in front of the ray is nearer. A ray sees the sphere exactly
/// if the discriminant is not `< 0.0` and a root is `>= 0.0`.
pub proof fn lemma_visible_root_is_nearest(discriminant: Scalar, first: Scalar, second: Scalar)
    ensures
        visible_root(discriminant, first, second) matches Some(d) ==> {
            &&& d == first || d == second
            &&& d.spec_is_non_negative()
            &&& first.spec_is_non_negative() ==> d.spec_le(first)
            &&& second.spec_is_non_negative() ==> d.spec_le(second)
        },
        visible_root(discriminant, first, second) is Some <==> !discriminant.spec_is_negative() && (
        first.spec_is_non_negative() || second.spec_is_non_negative()),
{
}

/// A ray that touches a sphere has one root twice, and sees the sphere at
/// that root if it is in front of the ray.
pub proof fn lemma_tangent_root(discriminant: Scalar, root: Scalar)
    requires
        !discriminant.spec_is_negative(),
        root.spec_is_non_negative(),
    ensures
        visible_root(discriminant, root, root) == Some(root),
{
}

} // verus!
