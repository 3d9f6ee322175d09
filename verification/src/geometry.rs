//! Geometric primitives on the integer grid: lengths, rescaled and
//! perpendicular vectors, intersections of lines and tangents to circles.
//!
//! Every quotient is rounded toward negative infinity and every square root
//! is rounded down, so a result is the exact value moved by less than one
//! grid step per rounding.

use vstd::prelude::*;
use rand::rngs::StdRng;
use crate::arith::{
    div_floor, floor_div, is_sqrt, isqrt, lemma_below_root, lemma_floor_div_between,
    lemma_floor_div_bounds, lemma_floor_div_exact, lemma_product_below_squares, lemma_product_bound,
    lemma_sqrt_floor_is_sqrt, lemma_square_monotone, sqrt_floor,
};
use crate::random::draw_fraction;
use crate::unit::{is_unit_fraction, Point2, Vector2, COORD_MAX, UNIT, VECTOR_MAX};

verus! {

/// The magnitude of a number.
pub open spec fn magnitude(v: int) -> int {
    if v >= 0 {
        v
    } else {
        -v
    }
}

/// The number fits the type of a coordinate.
pub open spec fn fits_coordinate(v: int) -> bool {
    i64::MIN <= v <= i64::MAX
}

/// Largest magnitude of a coordinate of a point that a line runs through.
pub const LINE_MAX: i64 = 0x10_0000_0000;

impl Vector2 {
    /// The length, rounded down.
    pub open spec fn norm_floor(self) -> int {
        sqrt_floor(self.norm_squared())
    }

    /// The first component of the vector stretched to the length `len`.
    pub open spec fn scaled_x(self, len: int) -> int {
        floor_div(self.x * len, self.norm_floor())
    }

    /// The second component of the vector stretched to the length `len`.
    pub open spec fn scaled_y(self, len: int) -> int {
        floor_div(self.y * len, self.norm_floor())
    }

    /// The vector stretched to the length `len`; none for a vector shorter
    /// than one grid step.
    pub open spec fn rescaled(self, len: int) -> Option<Vector2> {
        if self.norm_floor() == 0 {
            None
        } else {
            Some(Vector2 { x: self.scaled_x(len) as i64, y: self.scaled_y(len) as i64 })
        }
    }

    /// The vector turned a quarter counter-clockwise.
    pub open spec fn turned_left(self) -> Vector2 {
        Vector2 { x: (-self.y) as i64, y: self.x }
    }

    /// The vector turned a quarter clockwise.
    pub open spec fn turned_right(self) -> Vector2 {
        Vector2 { x: self.y, y: (-self.x) as i64 }
    }

    /// The vector of the same length that points the other way.
    pub open spec fn reversed(self) -> Vector2 {
        Vector2 { x: (-self.x) as i64, y: (-self.y) as i64 }
    }

    /// The vector of the same length that points the other way.
    pub fn reverse(&self) -> (v: Vector2)
        requires
            self.in_reach(),
        ensures
            v == self.reversed(),
            v.x == -self.x,
            v.y == -self.y,
            v.in_reach(),
    {
        Vector2 { x: -self.x, y: -self.y }
    }

    /// The length of the vector, rounded down.
    pub fn norm(&self) -> (n: i64)
        requires
            self.in_reach(),
        ensures
            n == self.norm_floor(),
            is_sqrt(self.norm_squared(), n as int),
            -n <= self.x <= n,
            -n <= self.y <= n,
            n <= 2 * VECTOR_MAX,
    {
        let x: i128 = self.x as i128;
        let y: i128 = self.y as i128;
        proof {
            lemma_product_bound(x as int, x as int, VECTOR_MAX as int, VECTOR_MAX as int);
            lemma_product_bound(y as int, y as int, VECTOR_MAX as int, VECTOR_MAX as int);
        }
        let sq: i128 = x * x + y * y;
        assert(x * x >= 0 && y * y >= 0) by (nonlinear_arith);
        let n: i128 = isqrt(sq);
        proof {
            lemma_below_root(x as int, sq as int, n as int);
            lemma_below_root(y as int, sq as int, n as int);
            if n > 2 * VECTOR_MAX {
                lemma_square_monotone(2 * VECTOR_MAX as int, n as int);
            }
        }
        n as i64
    }

    /// The vector turned a quarter counter-clockwise.
    pub fn turn_left(&self) -> (v: Vector2)
        requires
            self.in_reach(),
        ensures
            v == self.turned_left(),
            v.in_reach(),
            v.norm_squared() == self.norm_squared(),
    {
        assert((-self.y) * (-self.y) == self.y * self.y) by (nonlinear_arith);
        Vector2 { x: -self.y, y: self.x }
    }

    /// The vector turned a quarter clockwise.
    pub fn turn_right(&self) -> (v: Vector2)
        requires
            self.in_reach(),
        ensures
            v == self.turned_right(),
            v.in_reach(),
            v.norm_squared() == self.norm_squared(),
    {
        assert((-self.x) * (-self.x) == self.x * self.x) by (nonlinear_arith);
        Vector2 { x: self.y, y: -self.x }
    }

    /// The vector of the same direction and of length `len`; none for a
    /// vector shorter than one grid step, which has no direction.
    pub fn scaled_to(&self, len: i64) -> (r: Option<Vector2>)
        requires
            self.in_reach(),
            -VECTOR_MAX <= len <= VECTOR_MAX,
        ensures
            r == self.rescaled(len as int),
            r matches Some(v) ==> {
                &&& v.x == self.scaled_x(len as int)
                &&& v.y == self.scaled_y(len as int)
                &&& v.in_reach()
                &&& len >= 0 ==> -len <= v.x <= len && -len <= v.y <= len
                &&& len <= 0 ==> len <= v.x <= -len && len <= v.y <= -len
            },
    {
        let n: i64 = self.norm();
        if n == 0 {
            return None;
        }
        let bound: i128 = if len >= 0 { len as i128 } else { -(len as i128) };
        proof {
            lemma_scaled_component(self.x as int, len as int, n as int, bound as int);
            lemma_scaled_component(self.y as int, len as int, n as int, bound as int);
            lemma_product_bound(self.x as int, len as int, VECTOR_MAX as int, VECTOR_MAX as int);
            lemma_product_bound(self.y as int, len as int, VECTOR_MAX as int, VECTOR_MAX as int);
        }
        let x: i128 = div_floor((self.x as i128) * (len as i128), n as i128);
        let y: i128 = div_floor((self.y as i128) * (len as i128), n as i128);
        Some(Vector2 { x: x as i64, y: y as i64 })
    }
}

/// A component no longer than the norm, stretched by `len / n`, is no longer
/// than `len`.
pub proof fn lemma_scaled_component(c: int, len: int, n: int, bound: int)
    requires
        n > 0,
        -n <= c <= n,
        -bound <= len <= bound,
    ensures
        -bound <= floor_div(c * len, n) <= bound,
{
    lemma_product_bound(c, len, n, bound);
    assert((-bound) * n == -(n * bound)) by (nonlinear_arith);
    assert(bound * n == n * bound) by (nonlinear_arith);
    lemma_floor_div_between(c * len, n, -bound, bound);
}

/// The length of a vector, rounded down, is no less than the magnitude of
/// either component and no more than the sum of both.
pub proof fn lemma_norm_bounds(v: Vector2)
    ensures
        magnitude(v.x as int) <= v.norm_floor(),
        magnitude(v.y as int) <= v.norm_floor(),
        v.norm_floor() <= magnitude(v.x as int) + magnitude(v.y as int),
{
    let x = v.x as int;
    let y = v.y as int;
    let sq = v.norm_squared();
    assert(sq == x * x + y * y);
    assert(x * x >= 0 && y * y >= 0) by (nonlinear_arith);
    lemma_sqrt_floor_is_sqrt(sq);
    let n = v.norm_floor();
    lemma_below_root(x, sq, n);
    lemma_below_root(y, sq, n);
    let m = magnitude(x) + magnitude(y);
    if n > m {
        lemma_square_monotone(m, n);
        assert(magnitude(x) * magnitude(x) == x * x) by (nonlinear_arith)
            requires
                magnitude(x) == x || magnitude(x) == -x,
        ;
        assert(magnitude(y) * magnitude(y) == y * y) by (nonlinear_arith)
            requires
                magnitude(y) == y || magnitude(y) == -y,
        ;
        assert((m + 1) * (m + 1) > x * x + y * y) by (nonlinear_arith)
            requires
                m == magnitude(x) + magnitude(y),
                magnitude(x) >= 0,
                magnitude(y) >= 0,
                magnitude(x) * magnitude(x) == x * x,
                magnitude(y) * magnitude(y) == y * y,
        ;
    }
}

/// A vector stretched to a length runs along the vector, up to the
/// rounding: the two span an area of less than the sum of the magnitudes of
/// the vector's components.
pub proof fn lemma_rescaled_along(v: Vector2, len: int)
    requires
        v.norm_floor() > 0,
    ensures
        magnitude(v.x * v.scaled_y(len) - v.y * v.scaled_x(len)) < magnitude(v.x as int)
            + magnitude(v.y as int),
{
    let n = v.norm_floor();
    let vx = v.x as int;
    let vy = v.y as int;
    assert(v.norm_squared() >= 0) by (nonlinear_arith)
        requires
            v.norm_squared() == vx * vx + vy * vy,
    ;
    lemma_sqrt_floor_is_sqrt(v.norm_squared());
    assert(vx != 0 || vy != 0) by (nonlinear_arith)
        requires
            n > 0,
            n * n <= vx * vx + vy * vy,
    ;
    assert((-vy) * (vx * len) + vx * (vy * len) == 0 * n) by (nonlinear_arith);
    lemma_rounded_solution(-vy, vx, 0, vx * len, vy * len, n);
    assert((-vy) * v.scaled_x(len) + vx * v.scaled_y(len) - 0 == vx * v.scaled_y(len) - vy
        * v.scaled_x(len)) by (nonlinear_arith);
    assert(magnitude(-vy) == magnitude(vy));
}

/// A vector turned a quarter and stretched to a length stands at right
/// angles on the vector, up to the rounding: the product of the two is less
/// than the sum of the magnitudes of the vector's components.
pub proof fn lemma_quarter_turn_stands(v: Vector2, len: int, left: bool)
    requires
        v.in_reach(),
        v.norm_floor() > 0,
    ensures
        ({
            let turned = if left { v.turned_left() } else { v.turned_right() };
            magnitude(v.x * turned.scaled_x(len) + v.y * turned.scaled_y(len)) < magnitude(
                v.x as int,
            ) + magnitude(v.y as int)
        }),
{
    let turned = if left { v.turned_left() } else { v.turned_right() };
    let vx = v.x as int;
    let vy = v.y as int;
    assert(turned.norm_squared() == v.norm_squared()) by (nonlinear_arith)
        requires
            turned.norm_squared() == turned.x * turned.x + turned.y * turned.y,
            v.norm_squared() == vx * vx + vy * vy,
            (turned.x == -vy && turned.y == vx) || (turned.x == vy && turned.y == -vx),
    ;
    let n = turned.norm_floor();
    assert(v.norm_squared() >= 0) by (nonlinear_arith)
        requires
            v.norm_squared() == vx * vx + vy * vy,
    ;
    lemma_sqrt_floor_is_sqrt(v.norm_squared());
    assert(vx != 0 || vy != 0) by (nonlinear_arith)
        requires
            n > 0,
            n * n <= vx * vx + vy * vy,
    ;
    assert(vx * (turned.x * len) + vy * (turned.y * len) == 0 * n) by (nonlinear_arith)
        requires
            (turned.x == -vy && turned.y == vx) || (turned.x == vy && turned.y == -vx),
    ;
    lemma_rounded_solution(vx, vy, 0, turned.x * len, turned.y * len, n);
}

/// The line through two points.
#[derive(Clone, Copy, Debug, PartialEq, Eq, Structural)]
pub struct Line(pub Point2, pub Point2);

impl Line {
    /// Both points lie within `LINE_MAX` of the origin on each axis.
    pub open spec fn in_reach(self) -> bool {
        &&& -LINE_MAX <= self.0.x <= LINE_MAX
        &&& -LINE_MAX <= self.0.y <= LINE_MAX
        &&& -LINE_MAX <= self.1.x <= LINE_MAX
        &&& -LINE_MAX <= self.1.y <= LINE_MAX
    }

    /// The coefficient of `x` in the line's equation `a x + b y = c`.
    pub open spec fn coeff_a(self) -> int {
        self.1.y - self.0.y
    }

    /// The coefficient of `y` in the line's equation `a x + b y = c`.
    pub open spec fn coeff_b(self) -> int {
        self.0.x - self.1.x
    }

    /// The right-hand side of the line's equation `a x + b y = c`.
    pub open spec fn coeff_c(self) -> int {
        self.coeff_a() * self.0.x + self.coeff_b() * self.0.y
    }

    /// The determinant of the two equations: zero exactly for parallel
    /// lines, and for a line whose two points are one.
    pub open spec fn delta(self, other: Line) -> int {
        self.coeff_a() * other.coeff_b() - other.coeff_a() * self.coeff_b()
    }

    /// The first coordinate of the common point, rounded down.
    pub open spec fn crossing_x(self, other: Line) -> int {
        floor_div(
            other.coeff_b() * self.coeff_c() - self.coeff_b() * other.coeff_c(),
            self.delta(other),
        )
    }

    /// The second coordinate of the common point, rounded down.
    pub open spec fn crossing_y(self, other: Line) -> int {
        floor_div(
            self.coeff_a() * other.coeff_c() - other.coeff_a() * self.coeff_c(),
            self.delta(other),
        )
    }

    /// The two lines have exactly one common point: they are not parallel,
    /// and neither is given by one point twice.
    pub open spec fn crosses(self, other: Line) -> bool {
        self.delta(other) != 0
    }

    /// The common point of the two lines.  None where they have not
    /// exactly one, and where a coordinate of the point is too large for
    /// the type of a coordinate.
    pub open spec fn crossing(self, other: Line) -> Option<Point2> {
        if self.crosses(other) && fits_coordinate(self.crossing_x(other)) && fits_coordinate(
            self.crossing_y(other),
        ) {
            Some(Point2 { x: self.crossing_x(other) as i64, y: self.crossing_y(other) as i64 })
        } else {
            None
        }
    }

    /// Both points have the first coordinate `x`: the line runs straight up.
    pub open spec fn is_upright_at(self, x: int) -> bool {
        self.0.x == x && self.1.x == x
    }

    /// Tells whether both points are in reach.
    pub fn is_in_reach(&self) -> (b: bool)
        ensures
            b == self.in_reach(),
    {
        -LINE_MAX <= self.0.x && self.0.x <= LINE_MAX && -LINE_MAX <= self.0.y && self.0.y
            <= LINE_MAX && -LINE_MAX <= self.1.x && self.1.x <= LINE_MAX && -LINE_MAX <= self.1.y
            && self.1.y <= LINE_MAX
    }

    /// The common point of two lines, by the determinant of their
    /// equations.  None exactly where the determinant is zero, which is
    /// where the lines are parallel or one of them is given by one point
    /// twice; and where the lines meet so far away that a coordinate of
    /// the point does not fit its type.
    pub fn intersect(self, other: Self) -> (r: Option<Point2>)
        requires
            self.in_reach(),
            other.in_reach(),
        ensures
            r == self.crossing(other),
            !self.crosses(other) ==> r is None,
            fits_coordinate(self.crossing_x(other)) && fits_coordinate(self.crossing_y(other)) ==> (r
                is None <==> self.delta(other) == 0),
            r matches Some(p) ==> p.x == self.crossing_x(other) && p.y == self.crossing_y(other),
    {
        let m: i128 = LINE_MAX as i128;
        let a1: i128 = self.1.y as i128 - self.0.y as i128;
        let b1: i128 = self.0.x as i128 - self.1.x as i128;
        let a2: i128 = other.1.y as i128 - other.0.y as i128;
        let b2: i128 = other.0.x as i128 - other.1.x as i128;
        proof {
            lemma_product_bound(a1 as int, self.0.x as int, 2 * m, m as int);
            lemma_product_bound(b1 as int, self.0.y as int, 2 * m, m as int);
            lemma_product_bound(a2 as int, other.0.x as int, 2 * m, m as int);
            lemma_product_bound(b2 as int, other.0.y as int, 2 * m, m as int);
            lemma_product_bound(a1 as int, b2 as int, 2 * m, 2 * m);
            lemma_product_bound(a2 as int, b1 as int, 2 * m, 2 * m);
        }
        let c1: i128 = a1 * self.0.x as i128 + b1 * self.0.y as i128;
        let c2: i128 = a2 * other.0.x as i128 + b2 * other.0.y as i128;
        let delta: i128 = a1 * b2 - a2 * b1;
        if delta == 0 {
            return None;
        }
        proof {
            assert(m * m == 0x100_0000_0000_0000_0000) by (nonlinear_arith)
                requires
                    m == 0x10_0000_0000,
            ;
            let k: int = 4 * (m * m);
            lemma_product_bound(b2 as int, c1 as int, 2 * m, k);
            lemma_product_bound(b1 as int, c2 as int, 2 * m, k);
            lemma_product_bound(a1 as int, c2 as int, 2 * m, k);
            lemma_product_bound(a2 as int, c1 as int, 2 * m, k);
        }
        let x: i128 = div_floor(b2 * c1 - b1 * c2, delta);
        let y: i128 = div_floor(a1 * c2 - a2 * c1, delta);
        let least: i128 = i64::MIN as i128;
        let greatest: i128 = i64::MAX as i128;
        if least <= x && x <= greatest && least <= y && y <= greatest {
            Some(Point2 { x: x as i64, y: y as i64 })
        } else {
            None
        }
    }
}

/// Rounding a solution of a line's equation down moves it off the line by
/// less than the sum of the magnitudes of the equation's coefficients.
pub proof fn lemma_rounded_solution(a: int, b: int, c: int, nx: int, ny: int, d: int)
    requires
        d > 0,
        a != 0 || b != 0,
        a * nx + b * ny == c * d,
    ensures
        magnitude(a * floor_div(nx, d) + b * floor_div(ny, d) - c) < magnitude(a) + magnitude(b),
{
    let x = floor_div(nx, d);
    let y = floor_div(ny, d);
    lemma_floor_div_bounds(nx, d);
    lemma_floor_div_bounds(ny, d);
    let rx = nx - x * d;
    let ry = ny - y * d;
    let e = a * x + b * y - c;
    assert(e * d == -(a * rx + b * ry)) by (nonlinear_arith)
        requires
            a * nx + b * ny == c * d,
            rx == nx - x * d,
            ry == ny - y * d,
            e == a * x + b * y - c,
    ;
    lemma_product_bound(a, rx, magnitude(a), d - 1);
    lemma_product_bound(b, ry, magnitude(b), d - 1);
    let m = magnitude(a) + magnitude(b);
    assert(magnitude(a) * (d - 1) + magnitude(b) * (d - 1) == m * (d - 1)) by (nonlinear_arith)
        requires
            m == magnitude(a) + magnitude(b),
    ;
    assert(-m < e < m) by (nonlinear_arith)
        requires
            d > 0,
            m > 0,
            -(m * (d - 1)) <= e * d <= m * (d - 1),
    ;
}

/// The solution of two equations by their determinant, multiplied out,
/// solves the first one.
pub proof fn lemma_eliminated(a1: int, b1: int, c1: int, a2: int, b2: int, c2: int)
    ensures
        a1 * (b2 * c1 - b1 * c2) + b1 * (a1 * c2 - a2 * c1) == c1 * (a1 * b2 - a2 * b1),
{
    assert(a1 * (b2 * c1 - b1 * c2) == a1 * (b2 * c1) - a1 * (b1 * c2)) by (nonlinear_arith);
    assert(b1 * (a1 * c2 - a2 * c1) == b1 * (a1 * c2) - b1 * (a2 * c1)) by (nonlinear_arith);
    assert(c1 * (a1 * b2 - a2 * b1) == c1 * (a1 * b2) - c1 * (a2 * b1)) by (nonlinear_arith);
    assert(a1 * (b2 * c1) == c1 * (a1 * b2)) by (nonlinear_arith);
    assert(a1 * (b1 * c2) == b1 * (a1 * c2)) by (nonlinear_arith);
    assert(b1 * (a2 * c1) == c1 * (a2 * b1)) by (nonlinear_arith);
}

/// The point where two lines cross lies on both, up to the rounding: put
/// into either line's equation it misses the right-hand side by less than
/// the sum of the magnitudes of that equation's coefficients, which is less
/// than two grid steps away from the line.
pub proof fn lemma_crossing_near_lines(l1: Line, l2: Line)
    requires
        l1.delta(l2) != 0,
    ensures
        magnitude(
            l1.coeff_a() * l1.crossing_x(l2) + l1.coeff_b() * l1.crossing_y(l2) - l1.coeff_c(),
        ) < magnitude(l1.coeff_a()) + magnitude(l1.coeff_b()),
        magnitude(
            l2.coeff_a() * l1.crossing_x(l2) + l2.coeff_b() * l1.crossing_y(l2) - l2.coeff_c(),
        ) < magnitude(l2.coeff_a()) + magnitude(l2.coeff_b()),
{
    let a1 = l1.coeff_a();
    let b1 = l1.coeff_b();
    let c1 = l1.coeff_c();
    let a2 = l2.coeff_a();
    let b2 = l2.coeff_b();
    let c2 = l2.coeff_c();
    let delta = l1.delta(l2);
    let nx = b2 * c1 - b1 * c2;
    let ny = a1 * c2 - a2 * c1;
    lemma_eliminated(a1, b1, c1, a2, b2, c2);
    lemma_eliminated(a2, b2, c2, a1, b1, c1);
    assert(a2 * nx + b2 * ny == c2 * delta) by (nonlinear_arith)
        requires
            a2 * (b1 * c2 - b2 * c1) + b2 * (a2 * c1 - a1 * c2) == c2 * (a2 * b1 - a1 * b2),
            nx == b2 * c1 - b1 * c2,
            ny == a1 * c2 - a2 * c1,
            delta == a1 * b2 - a2 * b1,
    ;
    assert((a1 != 0 || b1 != 0) && (a2 != 0 || b2 != 0)) by (nonlinear_arith)
        requires
            delta == a1 * b2 - a2 * b1,
            delta != 0,
    ;
    if delta > 0 {
        lemma_rounded_solution(a1, b1, c1, nx, ny, delta);
        lemma_rounded_solution(a2, b2, c2, nx, ny, delta);
    } else {
        assert(a1 * (-nx) + b1 * (-ny) == c1 * (-delta) && a2 * (-nx) + b2 * (-ny) == c2 * (
        -delta)) by (nonlinear_arith)
            requires
                a1 * nx + b1 * ny == c1 * delta,
                a2 * nx + b2 * ny == c2 * delta,
        ;
        lemma_rounded_solution(a1, b1, c1, -nx, -ny, -delta);
        lemma_rounded_solution(a2, b2, c2, -nx, -ny, -delta);
    }
}

/// A point at least `reach` to the side of the centre of a circle of a smaller
/// radius has a tangent to it.
pub proof fn lemma_tangent_beside(o: Point2, p: Point2, radius: int, reach: int)
    requires
        0 <= radius < reach,
        p.x - o.x == reach,
    ensures
        tangent_exists(o, p, radius),
{
    let dy = p.y - o.y;
    assert(radius * radius < reach * reach) by (nonlinear_arith)
        requires
            0 <= radius < reach,
    ;
    assert(dy * dy >= 0) by (nonlinear_arith);
    assert(radius * radius >= 0) by (nonlinear_arith);
}

/// The squared distance between two points.
pub open spec fn distance_squared(o: Point2, p: Point2) -> int {
    (p.x - o.x) * (p.x - o.x) + (p.y - o.y) * (p.y - o.y)
}

/// The circle round `o` with the given radius has a tangent through `p`:
/// `p` is not the centre and does not lie inside the circle.
pub open spec fn tangent_exists(o: Point2, p: Point2, radius: int) -> bool {
    distance_squared(o, p) > 0 && radius * radius <= distance_squared(o, p)
}

/// The length of the tangent from `p` to the circle, rounded down.
pub open spec fn tangent_length(o: Point2, p: Point2, radius: int) -> int {
    sqrt_floor(distance_squared(o, p) - radius * radius)
}

/// The first component of the vector from the point of tangency to `p`.
pub open spec fn tangent_x(o: Point2, p: Point2, radius: int, up: bool) -> int {
    let dx = p.x - o.x;
    let dy = p.y - o.y;
    let s = tangent_length(o, p, radius);
    let across = if up { radius * dy } else { -(radius * dy) };
    floor_div(s * (dx * s + across), distance_squared(o, p))
}

/// The second component of the vector from the point of tangency to `p`.
pub open spec fn tangent_y(o: Point2, p: Point2, radius: int, up: bool) -> int {
    let dx = p.x - o.x;
    let dy = p.y - o.y;
    let s = tangent_length(o, p, radius);
    let across = if up { radius * dx } else { -(radius * dx) };
    floor_div(s * (dy * s - across), distance_squared(o, p))
}

/// The tangent vector is a side of the right-angled triangle between the
/// centre, the point of tangency and `p`, up to the rounding.
///
/// Its product with the vector from the centre to `p` is the square of the
/// tangent's length, as it is for a side that stands at right angles on the
/// radius.  The area that the two span is the radius times the tangent's
/// length, as it is where the third side is a radius; the tangent vector
/// lies clockwise of the vector from the centre for `up`, counter-clockwise
/// otherwise.  Either equation is missed by less than the sum of the
/// magnitudes of the components of the vector from the centre to `p`.
pub proof fn lemma_tangent_triangle(o: Point2, p: Point2, radius: int, up: bool)
    requires
        tangent_exists(o, p, radius),
    ensures
        magnitude(
            (p.x - o.x) * tangent_x(o, p, radius, up) + (p.y - o.y) * tangent_y(o, p, radius, up)
                - tangent_length(o, p, radius) * tangent_length(o, p, radius),
        ) < magnitude(p.x - o.x) + magnitude(p.y - o.y),
        magnitude(
            (p.x - o.x) * tangent_y(o, p, radius, up) - (p.y - o.y) * tangent_x(o, p, radius, up)
                + (if up {
                radius * tangent_length(o, p, radius)
            } else {
                -(radius * tangent_length(o, p, radius))
            }),
        ) < magnitude(p.x - o.x) + magnitude(p.y - o.y),
{
    let dx = p.x - o.x;
    let dy = p.y - o.y;
    let d2 = distance_squared(o, p);
    let s = tangent_length(o, p, radius);
    let ax = if up { radius * dy } else { -(radius * dy) };
    let ay = if up { radius * dx } else { -(radius * dx) };
    let nx = s * (dx * s + ax);
    let ny = s * (dy * s - ay);
    let rs = if up { radius * s } else { -(radius * s) };
    assert(dx != 0 || dy != 0) by (nonlinear_arith)
        requires
            dx * dx + dy * dy > 0,
    ;
    // the product with the vector from the centre
    assert(dx * ax == dy * ay) by (nonlinear_arith)
        requires
            ax == (if up { radius * dy } else { -(radius * dy) }),
            ay == (if up { radius * dx } else { -(radius * dx) }),
    ;
    assert(dx * nx == s * (dx * (dx * s)) + s * (dx * ax)) by (nonlinear_arith)
        requires
            nx == s * (dx * s + ax),
    ;
    assert(dy * ny == s * (dy * (dy * s)) - s * (dy * ay)) by (nonlinear_arith)
        requires
            ny == s * (dy * s - ay),
    ;
    assert(s * (dx * (dx * s)) == (s * s) * (dx * dx)) by (nonlinear_arith);
    assert(s * (dy * (dy * s)) == (s * s) * (dy * dy)) by (nonlinear_arith);
    assert((s * s) * d2 == (s * s) * (dx * dx) + (s * s) * (dy * dy)) by (nonlinear_arith)
        requires
            d2 == dx * dx + dy * dy,
    ;
    assert(dx * nx + dy * ny == (s * s) * d2);
    lemma_rounded_solution(dx, dy, s * s, nx, ny, d2);
    // the area that the two span
    assert((-dy) * nx == -(s * (dy * (dx * s))) - s * (dy * ax)) by (nonlinear_arith)
        requires
            nx == s * (dx * s + ax),
    ;
    assert(dx * ny == s * (dx * (dy * s)) - s * (dx * ay)) by (nonlinear_arith)
        requires
            ny == s * (dy * s - ay),
    ;
    assert(s * (dy * (dx * s)) == s * (dx * (dy * s))) by (nonlinear_arith);
    assert(s * (dy * ax) + s * (dx * ay) == rs * d2) by {
        if up {
            assert(s * (dy * (radius * dy)) == (radius * s) * (dy * dy)) by (nonlinear_arith);
            assert(s * (dx * (radius * dx)) == (radius * s) * (dx * dx)) by (nonlinear_arith);
            assert((radius * s) * d2 == (radius * s) * (dx * dx) + (radius * s) * (dy * dy))
                by (nonlinear_arith)
                requires
                    d2 == dx * dx + dy * dy,
            ;
        } else {
            assert(s * (dy * (-(radius * dy))) == -((radius * s) * (dy * dy)))
                by (nonlinear_arith);
            assert(s * (dx * (-(radius * dx))) == -((radius * s) * (dx * dx)))
                by (nonlinear_arith);
            assert((-(radius * s)) * d2 == -((radius * s) * (dx * dx)) - (radius * s) * (dy * dy))
                by (nonlinear_arith)
                requires
                    d2 == dx * dx + dy * dy,
            ;
        }
    }
    assert((-dy) * nx + dx * ny == (-rs) * d2) by (nonlinear_arith)
        requires
            (-dy) * nx == -(s * (dy * (dx * s))) - s * (dy * ax),
            dx * ny == s * (dx * (dy * s)) - s * (dx * ay),
            s * (dy * (dx * s)) == s * (dx * (dy * s)),
            s * (dy * ax) + s * (dx * ay) == rs * d2,
    ;
    lemma_rounded_solution(-dy, dx, -rs, nx, ny, d2);
    let vx = tangent_x(o, p, radius, up);
    let vy = tangent_y(o, p, radius, up);
    assert(vx == floor_div(nx, d2));
    assert(vy == floor_div(ny, d2));
    assert((-dy) * vx + dx * vy - (-rs) == dx * vy - dy * vx + rs) by (nonlinear_arith);
}

/// The vector from the point of tangency to `p`.
pub open spec fn tangent_vector(o: Point2, p: Point2, radius: int, up: bool) -> Vector2 {
    Vector2 { x: tangent_x(o, p, radius, up) as i64, y: tangent_y(o, p, radius, up) as i64 }
}

/// Tells whether the circle round `o` has a tangent through `p`.
pub fn has_tangent(o: Point2, p: Point2, radius: i64) -> (b: bool)
    requires
        o.in_range(),
        p.in_range(),
        -COORD_MAX <= radius <= COORD_MAX,
    ensures
        b == tangent_exists(o, p, radius as int),
{
    let c: i128 = COORD_MAX as i128;
    let dx: i128 = p.x as i128 - o.x as i128;
    let dy: i128 = p.y as i128 - o.y as i128;
    let rad: i128 = radius as i128;
    proof {
        lemma_product_bound(dx as int, dx as int, 2 * c, 2 * c);
        lemma_product_bound(dy as int, dy as int, 2 * c, 2 * c);
        lemma_product_bound(rad as int, rad as int, c as int, c as int);
    }
    let d2: i128 = dx * dx + dy * dy;
    d2 > 0 && rad * rad <= d2
}

/// The vector that leads to `p` from the point where a line through `p`
/// touches the circle round `o`.  Of the two such points, `up` picks the one
/// that lies counter-clockwise of `p` as seen from `o`.  The point `p` is
/// not the centre and does not lie inside the circle.
pub fn get_tangent_vector(o: Point2, p: Point2, radius: i64, up: bool) -> (v: Vector2)
    requires
        o.in_range(),
        p.in_range(),
        -COORD_MAX <= radius <= COORD_MAX,
        tangent_exists(o, p, radius as int),
    ensures
        v == tangent_vector(o, p, radius as int, up),
        v.x == tangent_x(o, p, radius as int, up),
        v.y == tangent_y(o, p, radius as int, up),
        v.in_reach(),
{
    let c: i128 = COORD_MAX as i128;
    let dx: i128 = p.x as i128 - o.x as i128;
    let dy: i128 = p.y as i128 - o.y as i128;
    let rad: i128 = radius as i128;
    proof {
        lemma_product_bound(dx as int, dx as int, 2 * c, 2 * c);
        lemma_product_bound(dy as int, dy as int, 2 * c, 2 * c);
        lemma_product_bound(rad as int, rad as int, c as int, c as int);
        assert(dx * dx >= 0 && dy * dy >= 0 && rad * rad >= 0) by (nonlinear_arith);
    }
    let d2: i128 = dx * dx + dy * dy;
    let r2: i128 = rad * rad;
    let s: i128 = isqrt(d2 - r2);
    proof {
        if s >= 0x1_0000_0000 {
            lemma_square_monotone(0xffff_ffff, s as int);
        }
        lemma_product_below_squares(dx as int, s as int, d2 as int);
        lemma_product_below_squares(dy as int, s as int, d2 as int);
        lemma_product_below_squares(rad as int, dy as int, d2 as int);
        lemma_product_below_squares(rad as int, dx as int, d2 as int);
    }
    let across_x: i128 = if up { rad * dy } else { -(rad * dy) };
    let across_y: i128 = if up { rad * dx } else { -(rad * dx) };
    let inner_x: i128 = dx * s + across_x;
    let inner_y: i128 = dy * s - across_y;
    proof {
        lemma_tangent_component(s as int, inner_x as int, d2 as int);
        lemma_tangent_component(s as int, inner_y as int, d2 as int);
    }
    let x: i128 = div_floor(s * inner_x, d2);
    let y: i128 = div_floor(s * inner_y, d2);
    Vector2 { x: x as i64, y: y as i64 }
}

/// The quotient that gives a component of a tangent vector is at most twice
/// the tangent's length.
pub proof fn lemma_tangent_component(s: int, inner: int, d2: int)
    requires
        0 <= s < 0x1_0000_0000,
        0 < d2 <= 0x8000_0000_0000_0000,
        -2 * d2 <= inner <= 2 * d2,
    ensures
        -0x1_0000_0000_0000_0000_0000_0000 <= s * inner <= 0x1_0000_0000_0000_0000_0000_0000,
        -2 * s <= floor_div(s * inner, d2) <= 2 * s,
{
    lemma_product_bound(s, inner, s, 2 * d2);
    lemma_product_bound(s, 2 * d2, 0x1_0000_0000, 0x1_0000_0000_0000_0000);
    assert(s * (2 * d2) == (2 * s) * d2) by (nonlinear_arith);
    assert((-2 * s) * d2 == -((2 * s) * d2)) by (nonlinear_arith);
    lemma_floor_div_between(s * inner, d2, -2 * s, 2 * s);
}

/// A cone of directions between two vectors.
#[derive(Clone, Copy, Debug, PartialEq, Eq, Structural)]
pub struct VectorRange {
    pub upward: Vector2,
    pub downward: Vector2,
}

impl VectorRange {
    /// Both ends of the cone are in reach.
    pub open spec fn in_reach(self) -> bool {
        self.upward.in_reach() && self.downward.in_reach()
    }

    /// The vector `t` of the way from `downward` to `upward`.
    pub open spec fn blended(self, t: int) -> Vector2 {
        Vector2 {
            x: floor_div(self.upward.x * t + self.downward.x * (UNIT - t), UNIT as int) as i64,
            y: floor_div(self.upward.y * t + self.downward.y * (UNIT - t), UNIT as int) as i64,
        }
    }

    /// The cone whose two ends are the zero vector.
    pub fn empty() -> (r: VectorRange)
        ensures
            r.upward == (Vector2 { x: 0, y: 0 }),
            r.downward == (Vector2 { x: 0, y: 0 }),
    {
        VectorRange { upward: Vector2 { x: 0, y: 0 }, downward: Vector2 { x: 0, y: 0 } }
    }

    /// The vector `t` of the way from `downward` to `upward`: `downward`
    /// for zero, `upward` for one.
    pub fn blend(&self, t: i64) -> (v: Vector2)
        requires
            self.in_reach(),
            is_unit_fraction(t as int),
        ensures
            v == self.blended(t as int),
            v.x == floor_div(self.upward.x * t + self.downward.x * (UNIT - t), UNIT as int),
            v.y == floor_div(self.upward.y * t + self.downward.y * (UNIT - t), UNIT as int),
            v.in_reach(),
    {
        let u: i128 = UNIT as i128;
        let w: i128 = t as i128;
        proof {
            lemma_blend_component(self.upward.x as int, self.downward.x as int, t as int);
            lemma_blend_component(self.upward.y as int, self.downward.y as int, t as int);
        }
        let x: i128 = div_floor(self.upward.x as i128 * w + self.downward.x as i128 * (u - w), u);
        let y: i128 = div_floor(self.upward.y as i128 * w + self.downward.y as i128 * (u - w), u);
        Vector2 { x: x as i64, y: y as i64 }
    }

    /// A vector of the cone, drawn at random.
    pub fn gen_random_dir(&self, rng: &mut StdRng) -> (v: Vector2)
        requires
            self.in_reach(),
        ensures
            exists|t: int| is_unit_fraction(t) && v == self.blended(t),
            v.in_reach(),
    {
        let t: i64 = draw_fraction(rng);
        self.blend(t)
    }
}

/// A weighted mean of two components in reach is in reach.
pub proof fn lemma_blend_component(a: int, b: int, t: int)
    requires
        -VECTOR_MAX <= a <= VECTOR_MAX,
        -VECTOR_MAX <= b <= VECTOR_MAX,
        is_unit_fraction(t),
    ensures
        -(VECTOR_MAX * UNIT) <= a * t <= VECTOR_MAX * UNIT,
        -(VECTOR_MAX * UNIT) <= b * (UNIT - t) <= VECTOR_MAX * UNIT,
        -VECTOR_MAX <= floor_div(a * t + b * (UNIT - t), UNIT as int) <= VECTOR_MAX,
{
    lemma_product_bound(a, t, VECTOR_MAX as int, t);
    lemma_product_bound(b, UNIT - t, VECTOR_MAX as int, UNIT - t);
    lemma_floor_div_between(a * t + b * (UNIT - t), UNIT as int, -VECTOR_MAX, VECTOR_MAX as int);
}

/// The line of direction `v` that touches the circle round `o`, on the left
/// of `v` as seen from the centre, or on its right; none where `v` is
/// shorter than one grid step.
pub open spec fn tangent_line(o: Point2, v: Vector2, radius: int, left: bool) -> Option<Line> {
    let across = if left { v.turned_left() } else { v.turned_right() };
    if across.norm_floor() == 0 {
        None
    } else {
        let px = o.x + across.scaled_x(radius);
        let py = o.y + across.scaled_y(radius);
        Some(
            Line(
                Point2 { x: px as i64, y: py as i64 },
                Point2 { x: (px + v.x) as i64, y: (py + v.y) as i64 },
            ),
        )
    }
}

/// The point where the tangent line of direction `v` meets the line `wall`.
pub open spec fn boundary_point(o: Point2, v: Vector2, radius: int, left: bool, wall: Line)
    -> Option<Point2> {
    match tangent_line(o, v, radius, left) {
        None => None,
        Some(line) => line.crossing(wall),
    }
}

/// The line of direction `v` that touches the circle round `o`: it runs
/// through the point at the distance `radius` from `o`, a quarter turn to
/// the left of `v`, or to its right.
pub fn get_tangent_line(o: Point2, v: Vector2, radius: i64, left: bool) -> (r: Option<Line>)
    requires
        o.in_range(),
        v.in_reach(),
        -COORD_MAX <= radius <= COORD_MAX,
    ensures
        r == tangent_line(o, v, radius as int, left),
        r matches Some(line) ==> line.in_reach(),
{
    let across: Vector2 = if left { v.turn_left() } else { v.turn_right() };
    match across.scaled_to(radius) {
        None => None,
        Some(n) => {
            let px: i64 = o.x + n.x;
            let py: i64 = o.y + n.y;
            Some(Line(Point2 { x: px, y: py }, Point2 { x: px + v.x, y: py + v.y }))
        },
    }
}

/// The point where the tangent line of direction `v` to the circle round
/// `o` meets `wall`; none where `v` has no direction, where the two lines
/// are parallel, and where they meet too far away for the type of a
/// coordinate.
pub fn get_boundary_point(o: Point2, v: Vector2, radius: i64, left: bool, wall: Line) -> (r:
    Option<Point2>)
    requires
        o.in_range(),
        v.in_reach(),
        -COORD_MAX <= radius <= COORD_MAX,
        wall.in_reach(),
    ensures
        r == boundary_point(o, v, radius as int, left, wall),
{
    match get_tangent_line(o, v, radius, left) {
        None => None,
        Some(line) => line.intersect(wall),
    }
}

/// Two lines of which one runs straight up meet on it.
pub proof fn lemma_crossing_on_upright(line: Line, wall: Line, x: int)
    requires
        wall.is_upright_at(x),
        line.delta(wall) != 0,
    ensures
        line.crossing_x(wall) == x,
{
    let a1 = line.coeff_a();
    let b1 = line.coeff_b();
    let c1 = line.coeff_c();
    let a2 = wall.coeff_a();
    let delta = line.delta(wall);
    assert(wall.coeff_b() == 0);
    assert(wall.coeff_c() == a2 * x) by (nonlinear_arith)
        requires
            wall.coeff_c() == a2 * wall.0.x + wall.coeff_b() * wall.0.y,
            wall.coeff_b() == 0,
            wall.0.x == x,
    ;
    assert(delta == -(a2 * b1)) by (nonlinear_arith)
        requires
            delta == a1 * wall.coeff_b() - a2 * b1,
            wall.coeff_b() == 0,
    ;
    assert(wall.coeff_b() * c1 - b1 * wall.coeff_c() == x * delta) by (nonlinear_arith)
        requires
            wall.coeff_b() == 0,
            wall.coeff_c() == a2 * x,
            delta == -(a2 * b1),
    ;
    lemma_floor_div_exact(x, delta);
}

/// How far along the segment from `v` to `w` the point of the segment that
/// is nearest to `p` lies, in parts of the square of the segment's length:
/// where `p` falls on the line through the segment, and no less than none
/// nor more than all of the parts.
pub open spec fn segment_parts(v: Point2, w: Point2, p: Point2) -> int {
    let along = (p.x - v.x) * (w.x - v.x) + (p.y - v.y) * (w.y - v.y);
    if along < 0 {
        0
    } else if along > distance_squared(v, w) {
        distance_squared(v, w)
    } else {
        along
    }
}

/// The point of the segment from `v` to `w` that is nearest to `p`.
pub open spec fn segment_projection(v: Point2, w: Point2, p: Point2) -> Point2 {
    let parts = segment_parts(v, w, p);
    Point2 {
        x: (v.x + floor_div((w.x - v.x) * parts, distance_squared(v, w))) as i64,
        y: (v.y + floor_div((w.y - v.y) * parts, distance_squared(v, w))) as i64,
    }
}

/// The distance from `p` to the segment from `v` to `w`, rounded down: to
/// `v` where the segment is a point, else to the nearest point of the
/// segment.
pub open spec fn segment_distance(v: Point2, w: Point2, p: Point2) -> int {
    if distance_squared(v, w) == 0 {
        sqrt_floor(distance_squared(v, p))
    } else {
        sqrt_floor(distance_squared(segment_projection(v, w, p), p))
    }
}

/// The distance between two points in range, rounded down.
fn distance(a: Point2, b: Point2) -> (d: i64)
    requires
        a.in_range(),
        b.in_range(),
    ensures
        d == sqrt_floor(distance_squared(a, b)),
{
    let dx: i128 = b.x as i128 - a.x as i128;
    let dy: i128 = b.y as i128 - a.y as i128;
    proof {
        lemma_product_bound(dx as int, dx as int, 2 * COORD_MAX, 2 * COORD_MAX);
        lemma_product_bound(dy as int, dy as int, 2 * COORD_MAX, 2 * COORD_MAX);
        assert(dx * dx >= 0 && dy * dy >= 0) by (nonlinear_arith);
    }
    isqrt(dx * dx + dy * dy) as i64
}

/// A step along a component of a segment stays on the component.
proof fn lemma_segment_step(from: int, to: int, parts: int, whole: int)
    requires
        0 <= parts <= whole,
        0 < whole <= 0x8000_0000_0000_0000,
        -COORD_MAX <= from <= COORD_MAX,
        -COORD_MAX <= to <= COORD_MAX,
    ensures
        -COORD_MAX <= from + floor_div((to - from) * parts, whole) <= COORD_MAX,
        -0x1_0000_0000_0000_0000_0000_0000 <= (to - from) * parts
            <= 0x1_0000_0000_0000_0000_0000_0000,
{
    let d = to - from;
    lemma_product_bound(d, parts, 0x1_0000_0000, 0x8000_0000_0000_0000);
    if d >= 0 {
        assert(0 <= d * parts <= d * whole) by (nonlinear_arith)
            requires
                d >= 0,
                0 <= parts <= whole,
        ;
        assert(0 * whole == 0);
        lemma_floor_div_between(d * parts, whole, 0, d);
    } else {
        assert(d * whole <= d * parts <= 0) by (nonlinear_arith)
            requires
                d < 0,
                0 <= parts <= whole,
        ;
        assert(0 * whole == 0);
        lemma_floor_div_between(d * parts, whole, d, 0);
    }
}

/// The distance from the point `p` to the segment from `v` to `w`.
pub fn minimum_distance(v: Point2, w: Point2, p: Point2) -> (d: i64)
    requires
        v.in_range(),
        w.in_range(),
        p.in_range(),
    ensures
        d == segment_distance(v, w, p),
{
    let c: i128 = COORD_MAX as i128;
    let wx: i128 = w.x as i128 - v.x as i128;
    let wy: i128 = w.y as i128 - v.y as i128;
    let px: i128 = p.x as i128 - v.x as i128;
    let py: i128 = p.y as i128 - v.y as i128;
    proof {
        lemma_product_bound(wx as int, wx as int, 2 * c, 2 * c);
        lemma_product_bound(wy as int, wy as int, 2 * c, 2 * c);
        lemma_product_bound(px as int, wx as int, 2 * c, 2 * c);
        lemma_product_bound(py as int, wy as int, 2 * c, 2 * c);
        assert(wx * wx >= 0 && wy * wy >= 0) by (nonlinear_arith);
        assert((2 * c) * (2 * c) == 0x4000_0000_0000_0000) by (nonlinear_arith)
            requires
                c == 0x4000_0000,
        ;
    }
    let length_sq: i128 = wx * wx + wy * wy;
    if length_sq == 0 {
        return distance(v, p);
    }
    let along: i128 = px * wx + py * wy;
    let parts: i128 = if along < 0 { 0 } else if along > length_sq { length_sq } else { along };
    proof {
        lemma_segment_step(v.x as int, w.x as int, parts as int, length_sq as int);
        lemma_segment_step(v.y as int, w.y as int, parts as int, length_sq as int);
    }
    let qx: i128 = v.x as i128 + div_floor(wx * parts, length_sq);
    let qy: i128 = v.y as i128 + div_floor(wy * parts, length_sq);
    distance(Point2 { x: qx as i64, y: qy as i64 }, p)
}

} // verus!
