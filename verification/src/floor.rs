//! Whether a ray meets a bounded plane, and which tile of its checkerboard.

use crate::scalar::Scalar;
use vstd::prelude::*;

verus! {

/// The extent of a floor along its two axes, read off its corners: `left`
/// and `bottom` from the bottom left corner, `right` from the bottom right,
/// `top` from the top left.
#[derive(Clone, Copy, Debug)]
pub struct Extent {
    pub left: Scalar,
    pub right: Scalar,
    pub bottom: Scalar,
    pub top: Scalar,
}

impl Extent {
    /// Whether the point `(x, y)` lies within the extent, its edges included.
    pub open spec fn holds(self, x: Scalar, y: Scalar) -> bool {
        &&& self.left.spec_le(x)
        &&& x.spec_le(self.right)
        &&& self.bottom.spec_le(y)
        &&& y.spec_le(self.top)
    }
}

/// Whether a ray meets a floor, when it meets the floor's plane at
/// `distance`, in the point `(x, y)`: the plane is in front of the ray, at a
/// distance `> 0.0`, and the point lies within `extent`.
pub open spec fn meets(extent: Extent, distance: Scalar, x: Scalar, y: Scalar) -> bool {
    distance.spec_is_positive() && extent.holds(x, y)
}

/// Decides whether a ray meets a floor. `distance` is where the ray meets
/// the floor's plane, and `(x, y)` is that point.
pub fn intersect(extent: &Extent, distance: Scalar, x: Scalar, y: Scalar) -> (hit: bool)
    ensures
        hit == meets(*extent, distance, x, y),
{
    distance.is_positive() && extent.left.le(&x) && x.le(&extent.right) && extent.bottom.le(&y)
        && y.le(&extent.top)
}

/// When a ray misses a floor. A ray along the plane meets it nowhere: its
/// distance is then no number, or infinite and the point with it, and such a
/// ray misses every floor of finite extent. So does a ray whose plane lies
/// behind it or at its origin, and a ray that meets the plane beyond any
/// edge of the floor, however little.
pub proof fn lemma_misses(extent: Extent, distance: Scalar, x: Scalar, y: Scalar)
    ensures
        distance.spec_is_nan() || distance.spec_is_negative() || distance.magnitude() == 0
            ==> !meets(extent, distance, x, y),
        x.spec_is_nan() || y.spec_is_nan() ==> !meets(extent, distance, x, y),
        extent.left.spec_is_finite() && extent.right.spec_is_finite() && !x.spec_is_finite()
            ==> !meets(extent, distance, x, y),
        extent.bottom.spec_is_finite() && extent.top.spec_is_finite() && !y.spec_is_finite()
            ==> !meets(extent, distance, x, y),
        x.spec_lt(extent.left) || extent.right.spec_lt(x) || y.spec_lt(extent.bottom)
            || extent.top.spec_lt(y) ==> !meets(extent, distance, x, y),
{
}

/// The two materials of a checkerboard floor.
#[derive(Clone, Copy, Debug, PartialEq, Eq)]
pub enum Tile {
    First,
    Second,
}

/// The material of the tile in column `column` and row `row` of the
/// checkerboard, both counted from the bottom left corner: the first where
/// both are even or both are odd, the second elsewhere.
pub open spec fn tile_at(column: int, row: int) -> Tile {
    if column % 2 == row % 2 {
        Tile::First
    } else {
        Tile::Second
    }
}

/// Decides the material of a point on a checkerboard floor. `x` and `y` are
/// where the point lies along the two edges of the floor from its bottom
/// left corner, in tiles: their integer parts are the column and the row of
/// the tile.
pub fn color_at(x: Scalar, y: Scalar) -> (tile: Tile)
    ensures
        tile == tile_at(x.spec_whole(), y.spec_whole()),
{
    if x.whole() % 2 == y.whole() % 2 {
        Tile::First
    } else {
        Tile::Second
    }
}

/// Tiles an even number of columns or rows apart are of one material, and
/// tiles an odd number apart, next to each other among them, of different
/// ones. The board is the same along both axes.
pub proof fn lemma_checkerboard(column: int, row: int, step: int)
    ensures
        step % 2 == 0 ==> tile_at(column + step, row) == tile_at(column, row),
        step % 2 == 0 ==> tile_at(column, row + step) == tile_at(column, row),
        step % 2 != 0 ==> tile_at(column + step, row) != tile_at(column, row),
        step % 2 != 0 ==> tile_at(column, row + step) != tile_at(column, row),
        tile_at(column + step, row + step) == tile_at(column, row),
        tile_at(row, column) == tile_at(column, row),
{
}

} // verus!
