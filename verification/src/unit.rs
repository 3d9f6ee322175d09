//! Points, vectors and bounds on the integer grid.
//!
//! Coordinates are signed integers in grid steps; the caller picks how fine
//! the grid is.  Fractions of a whole, such as interpolation parameters and
//! components of unit vectors, are counted in steps of `1 / UNIT`.

use vstd::prelude::*;
use vstd::std_specs::ops::SubSpec;
use crate::arith::{isqrt, lemma_product_bound, sqrt_floor};

verus! {

/// The value that stands for the fraction `1`.
pub const UNIT: i64 = 0x1_0000;

/// Largest magnitude of a coordinate of a point in range.
pub const COORD_MAX: i64 = 0x4000_0000;

/// Largest magnitude of a component of a vector in reach.
pub const VECTOR_MAX: i64 = 0x2_0000_0000;

/// Largest magnitude of a fraction that the interpolations accept.
pub const FRACTION_MAX: i64 = 0x100_0000;

/// A position on the grid.
#[derive(Clone, Copy, Debug, PartialEq, Eq, Structural)]
pub struct Point2 {
    pub x: i64,
    pub y: i64,
}

/// A position as handed to and from the library.
pub type Position = Point2;

/// A width and a height.
pub type Size = Point2;

/// A free vector: a direction with a length.
#[derive(Clone, Copy, Debug, PartialEq, Eq, Structural)]
pub struct Vector2 {
    pub x: i64,
    pub y: i64,
}

/// `v` is a coordinate that the geometry can work on without overflow.
pub open spec fn coord_in_range(v: int) -> bool {
    -COORD_MAX <= v <= COORD_MAX
}

/// `t` is a fraction between zero and one, both included.
pub open spec fn is_unit_fraction(t: int) -> bool {
    0 <= t <= UNIT
}

impl Point2 {
    /// Both coordinates are in range.
    pub open spec fn in_range(self) -> bool {
        coord_in_range(self.x as int) && coord_in_range(self.y as int)
    }

    /// The point with the given coordinates.
    pub fn new(x: i64, y: i64) -> (p: Point2)
        ensures
            p == (Point2 { x, y }),
    {
        Point2 { x, y }
    }

    /// Tells whether both coordinates are in range.
    pub fn is_in_range(&self) -> (b: bool)
        ensures
            b == self.in_range(),
    {
        -COORD_MAX <= self.x && self.x <= COORD_MAX && -COORD_MAX <= self.y && self.y <= COORD_MAX
    }

    /// The vector that leads from `other` to `self`.
    pub fn minus(&self, other: &Point2) -> (v: Vector2)
        requires
            self.in_range(),
            other.in_range(),
        ensures
            v.x == self.x - other.x,
            v.y == self.y - other.y,
            v.in_reach(),
    {
        Vector2 { x: self.x - other.x, y: self.y - other.y }
    }
}

impl Vector2 {
    /// Both components are small enough for the geometry to work on.
    pub open spec fn in_reach(self) -> bool {
        -VECTOR_MAX <= self.x <= VECTOR_MAX && -VECTOR_MAX <= self.y <= VECTOR_MAX
    }

    /// The squared length.
    pub open spec fn norm_squared(self) -> int {
        self.x * self.x + self.y * self.y
    }

    /// The cross product with `other`: positive where `other` lies
    /// counter-clockwise of `self`.
    pub open spec fn cross(self, other: Vector2) -> int {
        self.x * other.y - self.y * other.x
    }

    /// The vector with the given components.
    pub fn new(x: i64, y: i64) -> (v: Vector2)
        ensures
            v == (Vector2 { x, y }),
    {
        Vector2 { x, y }
    }

    /// Tells whether both components are in reach.
    pub fn is_in_reach(&self) -> (b: bool)
        ensures
            b == self.in_reach(),
    {
        -VECTOR_MAX <= self.x && self.x <= VECTOR_MAX && -VECTOR_MAX <= self.y && self.y
            <= VECTOR_MAX
    }
}

/// The point mirrored at the origin.
pub fn opposite_pos(p: &Position) -> (r: Position)
    requires
        p.x > i64::MIN,
        p.y > i64::MIN,
    ensures
        r.x == -p.x,
        r.y == -p.y,
{
    Position { x: -p.x, y: -p.y }
}

/// A closed interval given by its two ends.
pub struct Bounds1D<T> {
    pub min: T,
    pub max: T,
}

impl<T: core::ops::Sub<Output = T> + Copy> Bounds1D<T> {
    /// The interval from `min` to `max`.
    pub fn new(min: T, max: T) -> (b: Bounds1D<T>)
        ensures
            b.min == min,
            b.max == max,
    {
        Bounds1D { min: min, max: max }
    }

    /// The distance from the lower end to the upper end.
    pub fn get_size(&self) -> (size: T)
        requires
            self.max.sub_req(self.min),
        ensures
            T::obeys_sub_spec() ==> size == self.max.sub_spec(self.min),
    {
        self.max - self.min
    }
}

/// An upright rectangle given by its least and its greatest corner.
#[derive(Clone, Copy, Debug, PartialEq, Eq, Structural)]
pub struct Bounds2D {
    pub min: Position,
    pub max: Position,
}

impl Bounds2D {
    /// Both corners are in range.
    pub open spec fn in_range(self) -> bool {
        self.min.in_range() && self.max.in_range()
    }

    /// `self` is the smallest upright rectangle that holds every point of
    /// `pts`: no point lies beyond a side, and on each side lies a point.
    pub open spec fn is_hull_of(self, pts: Seq<Position>) -> bool {
        &&& forall|i: int|
            0 <= i < pts.len() ==> self.min.x <= (#[trigger] pts[i]).x <= self.max.x && self.min.y
                <= pts[i].y <= self.max.y
        &&& exists|i: int| 0 <= i < pts.len() && (#[trigger] pts[i]).x == self.min.x
        &&& exists|i: int| 0 <= i < pts.len() && (#[trigger] pts[i]).x == self.max.x
        &&& exists|i: int| 0 <= i < pts.len() && (#[trigger] pts[i]).y == self.min.y
        &&& exists|i: int| 0 <= i < pts.len() && (#[trigger] pts[i]).y == self.max.y
    }

    /// The width and the height.
    pub fn get_size(&self) -> (size: Size)
        requires
            i64::MIN <= self.max.x - self.min.x <= i64::MAX,
            i64::MIN <= self.max.y - self.min.y <= i64::MAX,
        ensures
            size.x == self.max.x - self.min.x,
            size.y == self.max.y - self.min.y,
    {
        Size { x: self.max.x - self.min.x, y: self.max.y - self.min.y }
    }

    /// Half the length of the diagonal, rounded down twice: the radius of
    /// the circle round the middle through the corners.
    pub fn get_radius(&self) -> (radius: i64)
        requires
            self.in_range(),
        ensures
            radius == sqrt_floor(
                (self.max.x - self.min.x) * (self.max.x - self.min.x) + (self.max.y - self.min.y)
                    * (self.max.y - self.min.y),
            ) / 2,
    {
        let w: i128 = self.max.x as i128 - self.min.x as i128;
        let h: i128 = self.max.y as i128 - self.min.y as i128;
        proof {
            lemma_product_bound(w as int, w as int, 2 * COORD_MAX, 2 * COORD_MAX);
            lemma_product_bound(h as int, h as int, 2 * COORD_MAX, 2 * COORD_MAX);
            assert(w * w >= 0 && h * h >= 0) by (nonlinear_arith);
        }
        (isqrt(w * w + h * h) / 2) as i64
    }

    /// The smallest upright rectangle that holds every one of the points.
    pub fn from_positions(pts: &Vec<Position>) -> (bounds: Bounds2D)
        requires
            pts@.len() > 0,
        ensures
            bounds.is_hull_of(pts@),
    {
        let mut min_x: i64 = pts[0].x;
        let mut min_y: i64 = pts[0].y;
        let mut max_x: i64 = pts[0].x;
        let mut max_y: i64 = pts[0].y;
        let mut n: usize = 1;
        proof {
            let first = pts@.subrange(0, 1);
            assert(first[0] == pts@[0]);
            assert(0 <= 0 < first.len() && first[0].x == min_x && first[0].y == min_y);
        }
        while n < pts.len()
            invariant
                1 <= n <= pts@.len(),
                (Bounds2D {
                    min: Position { x: min_x, y: min_y },
                    max: Position { x: max_x, y: max_y },
                }).is_hull_of(pts@.subrange(0, n as int)),
            decreases pts@.len() - n,
        {
            let ghost before = Bounds2D {
                min: Position { x: min_x, y: min_y },
                max: Position { x: max_x, y: max_y },
            };
            let ghost seen = pts@.subrange(0, n as int);
            let ghost more = pts@.subrange(0, n as int + 1);
            let ghost at_min_x = choose|i: int| 0 <= i < seen.len() && seen[i].x == before.min.x;
            let ghost at_max_x = choose|i: int| 0 <= i < seen.len() && seen[i].x == before.max.x;
            let ghost at_min_y = choose|i: int| 0 <= i < seen.len() && seen[i].y == before.min.y;
            let ghost at_max_y = choose|i: int| 0 <= i < seen.len() && seen[i].y == before.max.y;
            let p: Position = pts[n];
            if p.x > max_x {
                max_x = p.x;
            }
            if p.x < min_x {
                min_x = p.x;
            }
            if p.y > max_y {
                max_y = p.y;
            }
            if p.y < min_y {
                min_y = p.y;
            }
            proof {
                let after = Bounds2D {
                    min: Position { x: min_x, y: min_y },
                    max: Position { x: max_x, y: max_y },
                };
                assert(more[n as int] == p);
                assert forall|i: int| 0 <= i < more.len() implies after.min.x <= (
                #[trigger] more[i]).x <= after.max.x && after.min.y <= more[i].y
                    <= after.max.y by {
                    if i < n {
                        assert(more[i] == seen[i]);
                    }
                }
                assert(more[at_min_x] == seen[at_min_x]);
                assert(more[at_max_x] == seen[at_max_x]);
                assert(more[at_min_y] == seen[at_min_y]);
                assert(more[at_max_y] == seen[at_max_y]);
                let ix = if p.x == min_x { n as int } else { at_min_x };
                assert(0 <= ix < more.len() && more[ix].x == after.min.x);
                let jx = if p.x == max_x { n as int } else { at_max_x };
                assert(0 <= jx < more.len() && more[jx].x == after.max.x);
                let iy = if p.y == min_y { n as int } else { at_min_y };
                assert(0 <= iy < more.len() && more[iy].y == after.min.y);
                let jy = if p.y == max_y { n as int } else { at_max_y };
                assert(0 <= jy < more.len() && more[jy].y == after.max.y);
            }
            n = n + 1;
        }
        assert(pts@.subrange(0, n as int) =~= pts@);
        Bounds2D { min: Position { x: min_x, y: min_y }, max: Position { x: max_x, y: max_y } }
    }
}

} // verus!
