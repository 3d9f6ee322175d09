//! Quadrilateral cells of the corridor: interpolation, subdivision, insets
//! and slices.

use vstd::prelude::*;
use rand::rngs::StdRng;
use crate::arith::{
    div_floor, floor_div, lemma_floor_div_between, lemma_floor_div_bounds, lemma_floor_div_cancel,
    lemma_floor_div_exact, lemma_floor_div_monotone, lemma_floor_div_shrinks,
    lemma_floor_div_window, lemma_product_bound, lemma_sqrt_of_square,
};
use crate::geometry::{lemma_norm_bounds, lemma_rounded_solution, magnitude};
use crate::terrain::Waypoint;
use crate::random::draw_fraction;
use crate::unit::{
    coord_in_range, is_unit_fraction, Point2, Position, Vector2, COORD_MAX, FRACTION_MAX, UNIT,
    VECTOR_MAX,
};

verus! {

/// How far a bilinear patch leads from its first corner, along one axis,
/// for the fractions `x` and `y`.  The patch is given by its left edge
/// `vy`, its bottom edge `v1` and its top edge `v2`.
pub open spec fn bilinear_offset(vy: int, v1: int, v2: int, x: int, y: int) -> int {
    floor_div(vy * y * UNIT + (v1 * UNIT + (v2 - v1) * y) * x, UNIT * UNIT)
}

/// At the four corners of the unit square the patch leads to its corners.
pub proof fn lemma_bilinear_corners(vy: int, v1: int, v2: int)
    ensures
        bilinear_offset(vy, v1, v2, 0, 0) == 0,
        bilinear_offset(vy, v1, v2, UNIT as int, 0) == v1,
        bilinear_offset(vy, v1, v2, 0, UNIT as int) == vy,
        bilinear_offset(vy, v1, v2, UNIT as int, UNIT as int) == vy + v2,
{
    let u = UNIT as int;
    let d = u * u;
    assert(vy * 0 * u + (v1 * u + (v2 - v1) * 0) * 0 == 0 * d) by (nonlinear_arith);
    assert(vy * 0 * u + (v1 * u + (v2 - v1) * 0) * u == v1 * d) by (nonlinear_arith)
        requires
            d == u * u,
    ;
    assert(vy * u * u + (v1 * u + (v2 - v1) * u) * 0 == vy * d) by (nonlinear_arith)
        requires
            d == u * u,
    ;
    assert(vy * u * u + (v1 * u + (v2 - v1) * u) * u == (vy + v2) * d) by (nonlinear_arith)
        requires
            d == u * u,
    ;
    lemma_floor_div_exact(0, d);
    lemma_floor_div_exact(v1, d);
    lemma_floor_div_exact(vy, d);
    lemma_floor_div_exact(vy + v2, d);
}

/// Inside the unit square the patch stays between the least and the
/// greatest of its corners.
pub proof fn lemma_bilinear_inside(
    c00: int,
    c01: int,
    c10: int,
    c11: int,
    x: int,
    y: int,
    lo: int,
    hi: int,
)
    requires
        is_unit_fraction(x),
        is_unit_fraction(y),
        lo <= c00 <= hi,
        lo <= c01 <= hi,
        lo <= c10 <= hi,
        lo <= c11 <= hi,
    ensures
        lo <= c00 + bilinear_offset(c01 - c00, c10 - c00, c11 - c01, x, y) <= hi,
{
    let u = UNIT as int;
    let d = u * u;
    let n = (c01 - c00) * y * u + ((c10 - c00) * u + ((c11 - c01) - (c10 - c00)) * y) * x;
    let w00 = (u - x) * (u - y);
    let w01 = (u - x) * y;
    let w10 = x * (u - y);
    let w11 = x * y;
    assert(w00 >= 0 && w01 >= 0 && w10 >= 0 && w11 >= 0) by (nonlinear_arith)
        requires
            0 <= x <= u,
            0 <= y <= u,
            w00 == (u - x) * (u - y),
            w01 == (u - x) * y,
            w10 == x * (u - y),
            w11 == x * y,
    ;
    assert(w00 + w01 + w10 + w11 == d) by (nonlinear_arith)
        requires
            d == u * u,
            w00 == (u - x) * (u - y),
            w01 == (u - x) * y,
            w10 == x * (u - y),
            w11 == x * y,
    ;
    let pa = u * x;
    let pb = u * y;
    let pp = x * y;
    let k = (c11 - c01) - (c10 - c00);
    assert(w00 == d - pa - pb + pp && w01 == pb - pp && w10 == pa - pp) by (nonlinear_arith)
        requires
            d == u * u,
            pa == u * x,
            pb == u * y,
            pp == x * y,
            w00 == (u - x) * (u - y),
            w01 == (u - x) * y,
            w10 == x * (u - y),
    ;
    assert((c01 - c00) * y * u == (c01 - c00) * pb) by (nonlinear_arith)
        requires
            pb == u * y,
    ;
    assert(((c10 - c00) * u + k * y) * x == (c10 - c00) * pa + k * pp) by (nonlinear_arith)
        requires
            pa == u * x,
            pp == x * y,
    ;
    assert(c00 * (d - pa - pb + pp) == c00 * d - c00 * pa - c00 * pb + c00 * pp)
        by (nonlinear_arith);
    assert(c01 * (pb - pp) == c01 * pb - c01 * pp) by (nonlinear_arith);
    assert(c10 * (pa - pp) == c10 * pa - c10 * pp) by (nonlinear_arith);
    assert((c01 - c00) * pb == c01 * pb - c00 * pb) by (nonlinear_arith);
    assert((c10 - c00) * pa == c10 * pa - c00 * pa) by (nonlinear_arith);
    assert(k * pp == c11 * pp - c01 * pp - c10 * pp + c00 * pp) by (nonlinear_arith)
        requires
            k == (c11 - c01) - (c10 - c00),
    ;
    assert(c00 * d + n == c00 * w00 + c01 * w01 + c10 * w10 + c11 * w11);
    assert(lo * w00 <= c00 * w00 <= hi * w00) by (nonlinear_arith)
        requires
            lo <= c00 <= hi,
            w00 >= 0,
    ;
    assert(lo * w01 <= c01 * w01 <= hi * w01) by (nonlinear_arith)
        requires
            lo <= c01 <= hi,
            w01 >= 0,
    ;
    assert(lo * w10 <= c10 * w10 <= hi * w10) by (nonlinear_arith)
        requires
            lo <= c10 <= hi,
            w10 >= 0,
    ;
    assert(lo * w11 <= c11 * w11 <= hi * w11) by (nonlinear_arith)
        requires
            lo <= c11 <= hi,
            w11 >= 0,
    ;
    assert(lo * d == lo * w00 + lo * w01 + lo * w10 + lo * w11) by (nonlinear_arith)
        requires
            w00 + w01 + w10 + w11 == d,
    ;
    assert(hi * d == hi * w00 + hi * w01 + hi * w10 + hi * w11) by (nonlinear_arith)
        requires
            w00 + w01 + w10 + w11 == d,
    ;
    let q = floor_div(n, d);
    lemma_floor_div_bounds(n, d);
    assert((c00 + q) * d == c00 * d + q * d) by (nonlinear_arith);
    lemma_floor_div_window(c00 * d + n, d, c00 + q);
    lemma_floor_div_between(c00 * d + n, d, lo, hi);
}

/// Computes how far a bilinear patch leads from its first corner along one
/// axis.
fn bilinear(vy: i64, v1: i64, v2: i64, x: i64, y: i64) -> (r: i64)
    requires
        -2 * COORD_MAX <= vy <= 2 * COORD_MAX,
        -2 * COORD_MAX <= v1 <= 2 * COORD_MAX,
        -2 * COORD_MAX <= v2 <= 2 * COORD_MAX,
        -FRACTION_MAX <= x <= FRACTION_MAX,
        -FRACTION_MAX <= y <= FRACTION_MAX,
    ensures
        r == bilinear_offset(vy as int, v1 as int, v2 as int, x as int, y as int),
        -0x10_0000_0000_0000 <= r <= 0x10_0000_0000_0000,
{
    let u: i128 = UNIT as i128;
    let xa: i128 = x as i128;
    let ya: i128 = y as i128;
    let ghost c: int = 2 * COORD_MAX;
    let ghost f: int = FRACTION_MAX as int;
    proof {
        lemma_product_bound(vy as int, y as int, c, f);
        lemma_product_bound(v2 - v1, y as int, 2 * c, f);
    }
    let lean: i128 = (vy as i128) * ya * u;
    let edge: i128 = (v1 as i128) * u + (v2 as i128 - v1 as i128) * ya;
    proof {
        lemma_product_bound(edge as int, x as int, c * UNIT + 2 * c * f, f);
    }
    let n: i128 = lean + edge * xa;
    let d: i128 = u * u;
    proof {
        lemma_floor_div_between(
            n as int,
            d as int,
            -0x10_0000_0000_0000,
            0x10_0000_0000_0000,
        );
    }
    div_floor(n, d) as i64
}

/// In a grid of `width` columns, the place in the column `col` of the row
/// `row` has the number `row * width + col`, from which the division by
/// `width` gives the row and the column back.
pub proof fn lemma_grid_bounds(width: int, height: int, col: int, row: int)
    requires
        0 <= col < width,
        0 <= row < height,
    ensures
        0 <= row * width + col < width * height,
        (row * width + col) % width == col,
        (row * width + col) / width == row,
{
    assert(0 <= row * width && row * width + width <= width * height) by (nonlinear_arith)
        requires
            0 <= row,
            row + 1 <= height,
            0 < width,
    ;
    lemma_floor_div_window(row * width + col, width, row);
    vstd::arithmetic::div_mod::lemma_fundamental_div_mod(row * width + col, width);
    assert(width * ((row * width + col) / width) == row * width) by (nonlinear_arith)
        requires
            (row * width + col) / width == row,
    ;
}

/// The fraction `index / count`, rounded down: zero for the first point of
/// a lattice and one for the last.
fn lattice_fraction(index: usize, count: usize) -> (t: i64)
    requires
        0 < count,
        index <= count,
    ensures
        t == floor_div(index * UNIT, count as int),
        is_unit_fraction(t as int),
{
    proof {
        lemma_product_bound(index as int, UNIT as int, count as int, UNIT as int);
        assert(0 <= index * UNIT) by (nonlinear_arith)
            requires
                0 <= index,
        ;
        assert(0 * count == 0);
        assert(UNIT * count == count * UNIT) by (nonlinear_arith);
        lemma_floor_div_between(index * UNIT, count as int, 0, UNIT as int);
    }
    div_floor(index as i128 * UNIT as i128, count as i128) as i64
}

/// The point with the given coordinates, if they are in range.
pub open spec fn point_in_range(x: int, y: int) -> Option<Point2> {
    if coord_in_range(x) && coord_in_range(y) {
        Some(Point2 { x: x as i64, y: y as i64 })
    } else {
        None
    }
}

/// Makes a point of two coordinates, if they are in range.
fn checked_point(x: i128, y: i128) -> (r: Option<Point2>)
    ensures
        r == point_in_range(x as int, y as int),
        r matches Some(p) ==> p.in_range(),
{
    let m: i128 = COORD_MAX as i128;
    if -m <= x && x <= m && -m <= y && y <= m {
        Some(Point2 { x: x as i64, y: y as i64 })
    } else {
        None
    }
}

/// The point that lies at the distance `dist` from both lines through `p`,
/// the one along `va` and the one along `vb`, between the two vectors.
///
/// It lies on the bisector of the angle between them, `dist` divided by the
/// sine of half the angle away from `p`: that is the sum of each vector
/// stretched by the other's length, times `dist`, divided by the area that
/// the two span.  None where they span no area, or the point is out of
/// range.
pub open spec fn bisector_offset(p: Point2, va: Vector2, vb: Vector2, dist: int) -> Option<
    Point2,
> {
    if va.cross(vb) == 0 {
        None
    } else {
        point_in_range(p.x + bisector_step_x(va, vb, dist), p.y + bisector_step_y(va, vb, dist))
    }
}

/// How far the point on the bisector lies from the corner along the first
/// axis.
pub open spec fn bisector_step_x(va: Vector2, vb: Vector2, dist: int) -> int {
    floor_div(
        (va.norm_floor() * vb.x + vb.norm_floor() * va.x) * dist,
        magnitude(va.cross(vb)),
    )
}

/// How far the point on the bisector lies from the corner along the second
/// axis.
pub open spec fn bisector_step_y(va: Vector2, vb: Vector2, dist: int) -> int {
    floor_div(
        (va.norm_floor() * vb.y + vb.norm_floor() * va.y) * dist,
        magnitude(va.cross(vb)),
    )
}

/// One for a positive number and minus one for a negative one.
pub open spec fn sign(v: int) -> int {
    if v > 0 {
        1
    } else if v < 0 {
        -1
    } else {
        0
    }
}

/// The point on the bisector lies at the distance `dist` from both lines,
/// up to the rounding.
///
/// The step from the corner spans with `va` the area of `dist` times the
/// length of `va`, which is what a point at the distance `dist` from the
/// line along `va` does; and it spans as much with `vb`.  The step lies on
/// the side of either vector on which the other one lies.  Either area is
/// missed by less than the sum of the magnitudes of the components of the
/// vector that spans it.
pub proof fn lemma_bisector_distance(va: Vector2, vb: Vector2, dist: int)
    requires
        va.cross(vb) != 0,
    ensures
        magnitude(
            va.x * bisector_step_y(va, vb, dist) - va.y * bisector_step_x(va, vb, dist) - sign(
                va.cross(vb),
            ) * (dist * va.norm_floor()),
        ) < magnitude(va.x as int) + magnitude(va.y as int),
        magnitude(
            bisector_step_x(va, vb, dist) * vb.y - bisector_step_y(va, vb, dist) * vb.x - sign(
                va.cross(vb),
            ) * (dist * vb.norm_floor()),
        ) < magnitude(vb.x as int) + magnitude(vb.y as int),
{
    let na = va.norm_floor();
    let nb = vb.norm_floor();
    let ax = va.x as int;
    let ay = va.y as int;
    let bx = vb.x as int;
    let by = vb.y as int;
    let cross = va.cross(vb);
    let area = magnitude(cross);
    let sg = sign(cross);
    let nx = (na * bx + nb * ax) * dist;
    let ny = (na * by + nb * ay) * dist;
    assert(cross == sg * area);
    assert((ax != 0 || ay != 0) && (bx != 0 || by != 0)) by (nonlinear_arith)
        requires
            cross == ax * by - ay * bx,
            cross != 0,
    ;
    // the area spanned with the first vector
    assert(ax * ny - ay * nx == dist * (ax * (na * by + nb * ay) - ay * (na * bx + nb * ax)))
        by (nonlinear_arith)
        requires
            nx == (na * bx + nb * ax) * dist,
            ny == (na * by + nb * ay) * dist,
    ;
    assert(ax * (na * by + nb * ay) == na * (ax * by) + nb * (ax * ay)) by (nonlinear_arith);
    assert(ay * (na * bx + nb * ax) == na * (ay * bx) + nb * (ax * ay)) by (nonlinear_arith);
    assert(na * cross == na * (ax * by) - na * (ay * bx)) by (nonlinear_arith)
        requires
            cross == ax * by - ay * bx,
    ;
    assert(dist * (na * cross) == (sg * (dist * na)) * area) by (nonlinear_arith)
        requires
            cross == sg * area,
    ;
    assert((-ay) * nx + ax * ny == (sg * (dist * na)) * area) by (nonlinear_arith)
        requires
            ax * ny - ay * nx == dist * (na * cross),
            dist * (na * cross) == (sg * (dist * na)) * area,
    ;
    lemma_rounded_solution(-ay, ax, sg * (dist * na), nx, ny, area);
    // the area spanned with the second vector
    assert(nx * by - ny * bx == dist * ((na * bx + nb * ax) * by - (na * by + nb * ay) * bx))
        by (nonlinear_arith)
        requires
            nx == (na * bx + nb * ax) * dist,
            ny == (na * by + nb * ay) * dist,
    ;
    assert((na * bx + nb * ax) * by == na * (bx * by) + nb * (ax * by)) by (nonlinear_arith);
    assert((na * by + nb * ay) * bx == na * (bx * by) + nb * (ay * bx)) by (nonlinear_arith);
    assert(nb * cross == nb * (ax * by) - nb * (ay * bx)) by (nonlinear_arith)
        requires
            cross == ax * by - ay * bx,
    ;
    assert(dist * (nb * cross) == (sg * (dist * nb)) * area) by (nonlinear_arith)
        requires
            cross == sg * area,
    ;
    assert(by * nx + (-bx) * ny == (sg * (dist * nb)) * area) by (nonlinear_arith)
        requires
            nx * by - ny * bx == dist * (nb * cross),
            dist * (nb * cross) == (sg * (dist * nb)) * area,
    ;
    lemma_rounded_solution(by, -bx, sg * (dist * nb), nx, ny, area);
    let qx = bisector_step_x(va, vb, dist);
    let qy = bisector_step_y(va, vb, dist);
    assert((-ay) * qx + ax * qy == ax * qy - ay * qx) by (nonlinear_arith);
    assert(by * qx + (-bx) * qy == qx * by - qy * bx) by (nonlinear_arith);
    assert(magnitude(-ay) == magnitude(ay) && magnitude(-bx) == magnitude(bx));
}

/// Beside an edge that runs straight up, the point on the bisector lies
/// exactly `dist` to the side on which the other edge leads.
pub proof fn lemma_bisector_beside_upright(va: Vector2, vb: Vector2, dist: int)
    requires
        va.x == 0,
        va.y != 0,
        vb.x != 0,
    ensures
        va.cross(vb) != 0,
        bisector_step_x(va, vb, dist) == sign(vb.x as int) * dist,
{
    let a = va.y as int;
    let b = vb.x as int;
    let na = va.norm_floor();
    let nb = vb.norm_floor();
    lemma_sqrt_of_square(a);
    assert(va.norm_squared() == a * a) by (nonlinear_arith)
        requires
            va.norm_squared() == va.x * va.x + a * a,
            va.x == 0,
    ;
    assert(na == magnitude(a));
    assert(va.cross(vb) == -(a * b)) by (nonlinear_arith)
        requires
            va.cross(vb) == va.x * vb.y - a * b,
            va.x == 0,
    ;
    let area = magnitude(va.cross(vb));
    assert(area == na * magnitude(b) && area > 0) by (nonlinear_arith)
        requires
            area == magnitude(-(a * b)),
            na == magnitude(a),
            a != 0,
            b != 0,
    ;
    assert((na * vb.x + nb * va.x) * dist == (sign(b) * dist) * area) by (nonlinear_arith)
        requires
            va.x == 0,
            vb.x == b,
            area == na * magnitude(b),
    ;
    lemma_floor_div_exact(sign(b) * dist, area);
}

/// Beside an edge that runs straight up, the point on the bisector lies as
/// far up as the other edge rises and is long, taken together, times
/// `dist` and divided by how far the other edge leads to the side; as far
/// down, where the upright edge runs downward.
pub proof fn lemma_bisector_rise_beside_upright(va: Vector2, vb: Vector2, dist: int)
    requires
        va.x == 0,
        va.y != 0,
        vb.x != 0,
    ensures
        bisector_step_y(va, vb, dist) == floor_div(
            (vb.y + sign(va.y as int) * vb.norm_floor()) * dist,
            magnitude(vb.x as int),
        ),
{
    let a = va.y as int;
    let b = vb.x as int;
    let na = va.norm_floor();
    let nb = vb.norm_floor();
    lemma_sqrt_of_square(a);
    assert(va.norm_squared() == a * a) by (nonlinear_arith)
        requires
            va.norm_squared() == va.x * va.x + a * a,
            va.x == 0,
    ;
    assert(na == magnitude(a));
    assert(va.cross(vb) == -(a * b)) by (nonlinear_arith)
        requires
            va.cross(vb) == va.x * vb.y - a * b,
            va.x == 0,
    ;
    let area = magnitude(va.cross(vb));
    assert(area == na * magnitude(b)) by (nonlinear_arith)
        requires
            area == magnitude(-(a * b)),
            na == magnitude(a),
    ;
    let x = (vb.y + sign(a) * nb) * dist;
    assert(a == sign(a) * na) by {
        if a > 0 {
            assert(1 * na == na);
        } else {
            assert((-1) * na == -na);
        }
    }
    assert((na * vb.y + nb * va.y) * dist == na * x) by (nonlinear_arith)
        requires
            x == (vb.y + sign(a) * nb) * dist,
            va.y == a,
            a == sign(a) * na,
    ;
    lemma_floor_div_cancel(na, x, magnitude(b));
}

/// How far a difference leads upward: nothing where it leads downward.
pub open spec fn rise(d: int) -> int {
    if d > 0 {
        d
    } else {
        0
    }
}

/// How far a difference leads downward: nothing where it leads upward.
pub open spec fn fall(d: int) -> int {
    if d < 0 {
        -d
    } else {
        0
    }
}

/// How far the corners at an upright side move along it when an edge of
/// the length `n` that leads `d` to the side and `delta` upward is moved
/// inward by `r`: the corner that the edge leaves upward moves up by no
/// more than `r` and `2 r rise(delta) / d`, and the corner that it leaves
/// downward moves down by less than `r`, `2 r fall(delta) / d` and one.
pub proof fn lemma_inset_along_upright(delta: int, n: int, d: int, r: int)
    requires
        d > 0,
        r >= 0,
        magnitude(delta) <= n <= d + magnitude(delta),
    ensures
        0 <= floor_div((delta + n) * r, d),
        floor_div((delta + n) * r, d) * d <= d * r + 2 * r * rise(delta),
        floor_div((delta - n) * r, d) <= 0,
        floor_div((delta - n) * r, d) * d > -(d * r) - 2 * r * fall(delta) - d,
{
    let up = floor_div((delta + n) * r, d);
    let down = floor_div((delta - n) * r, d);
    lemma_floor_div_bounds((delta + n) * r, d);
    lemma_floor_div_bounds((delta - n) * r, d);
    assert(0 <= (delta + n) * r <= d * r + 2 * r * rise(delta)) by (nonlinear_arith)
        requires
            r >= 0,
            0 <= delta + n <= d + 2 * rise(delta),
    ;
    assert(-(d * r) - 2 * r * fall(delta) <= (delta - n) * r <= 0) by (nonlinear_arith)
        requires
            r >= 0,
            -d - 2 * fall(delta) <= delta - n <= 0,
    ;
    lemma_floor_div_exact(0, d);
    assert(0 * d == 0);
    lemma_floor_div_monotone(0, (delta + n) * r, d);
    lemma_floor_div_monotone((delta - n) * r, 0, d);
}

/// Where the corner `p` of an upright side moves when the side and the
/// edge `vb` that leaves it are moved inward by `radius`: to the side by
/// the radius, and along the side by `rise`, which is what the edge's rise
/// and length come to.
pub proof fn lemma_corner_beside_upright(
    p: Point2,
    va: Vector2,
    vb: Vector2,
    radius: int,
    side: int,
    step: int,
)
    requires
        va.x == 0,
        va.y != 0,
        vb.x != 0,
        side == sign(vb.x as int) * radius,
        step == floor_div(
            (vb.y + sign(va.y as int) * vb.norm_floor()) * radius,
            magnitude(vb.x as int),
        ),
        coord_in_range(p.x + side),
        coord_in_range(p.y + step),
    ensures
        bisector_offset(p, va, vb, radius) == Some(
            Point2 { x: (p.x + side) as i64, y: (p.y + step) as i64 },
        ),
{
    lemma_bisector_beside_upright(va, vb, radius);
    lemma_bisector_rise_beside_upright(va, vb, radius);
}

/// Between an edge that runs straight up and one that runs level, the
/// point on the bisector lies exactly `dist` from both.
pub proof fn lemma_bisector_right_angle(va: Vector2, vb: Vector2, dist: int)
    requires
        va.x == 0,
        va.y != 0,
        vb.x != 0,
        vb.y == 0,
    ensures
        va.cross(vb) != 0,
        bisector_step_x(va, vb, dist) == sign(vb.x as int) * dist,
        bisector_step_y(va, vb, dist) == sign(va.y as int) * dist,
{
    lemma_bisector_beside_upright(va, vb, dist);
    let a = va.y as int;
    let b = vb.x as int;
    let na = va.norm_floor();
    let nb = vb.norm_floor();
    lemma_sqrt_of_square(b);
    assert(vb.norm_squared() == b * b) by (nonlinear_arith)
        requires
            vb.norm_squared() == b * b + vb.y * vb.y,
            vb.y == 0,
    ;
    lemma_sqrt_of_square(a);
    assert(va.norm_squared() == a * a) by (nonlinear_arith)
        requires
            va.norm_squared() == va.x * va.x + a * a,
            va.x == 0,
    ;
    assert(va.cross(vb) == -(a * b)) by (nonlinear_arith)
        requires
            va.cross(vb) == va.x * vb.y - a * b,
            va.x == 0,
    ;
    let area = magnitude(va.cross(vb));
    assert(area == magnitude(a) * nb && area > 0) by (nonlinear_arith)
        requires
            area == magnitude(-(a * b)),
            nb == magnitude(b),
            a != 0,
            b != 0,
    ;
    assert((na * vb.y + nb * va.y) * dist == (sign(a) * dist) * area) by (nonlinear_arith)
        requires
            vb.y == 0,
            va.y == a,
            area == magnitude(a) * nb,
    ;
    lemma_floor_div_exact(sign(a) * dist, area);
}

/// The point reached from `p` along `v` at the distance `dist` from the
/// line through `p` along `edge`: `v` times `dist` and the length of
/// `edge`, divided by the area that `edge` and `v` span.  None where they
/// span no area, or the point is out of range.
pub open spec fn slid_along(p: Point2, v: Vector2, edge: Vector2, dist: int) -> Option<Point2> {
    if edge.cross(v) == 0 {
        None
    } else {
        point_in_range(p.x + slide_step_x(v, edge, dist), p.y + slide_step_y(v, edge, dist))
    }
}

/// How far the slide leads along the first axis.
pub open spec fn slide_step_x(v: Vector2, edge: Vector2, dist: int) -> int {
    floor_div(v.x * dist * edge.norm_floor(), magnitude(edge.cross(v)))
}

/// How far the slide leads along the second axis.
pub open spec fn slide_step_y(v: Vector2, edge: Vector2, dist: int) -> int {
    floor_div(v.y * dist * edge.norm_floor(), magnitude(edge.cross(v)))
}

/// The slide leads along `v` to the distance `dist` from the line along
/// `edge`, up to the rounding.
///
/// The step spans no area with `v`, and with `edge` the area of `dist`
/// times the length of `edge`, on the side of `edge` on which `v` lies.
/// Either area is missed by less than the sum of the magnitudes of the
/// components of the vector that spans it.
pub proof fn lemma_slide_distance(v: Vector2, edge: Vector2, dist: int)
    requires
        edge.cross(v) != 0,
    ensures
        magnitude(v.x * slide_step_y(v, edge, dist) - v.y * slide_step_x(v, edge, dist))
            < magnitude(v.x as int) + magnitude(v.y as int),
        magnitude(
            edge.x * slide_step_y(v, edge, dist) - edge.y * slide_step_x(v, edge, dist) - sign(
                edge.cross(v),
            ) * (dist * edge.norm_floor()),
        ) < magnitude(edge.x as int) + magnitude(edge.y as int),
{
    let n = edge.norm_floor();
    let vx = v.x as int;
    let vy = v.y as int;
    let ex = edge.x as int;
    let ey = edge.y as int;
    let cross = edge.cross(v);
    let area = magnitude(cross);
    let sg = sign(cross);
    let nx = vx * dist * n;
    let ny = vy * dist * n;
    assert(cross == sg * area);
    assert((vx != 0 || vy != 0) && (ex != 0 || ey != 0)) by (nonlinear_arith)
        requires
            cross == ex * vy - ey * vx,
            cross != 0,
    ;
    assert((-vy) * nx + vx * ny == 0 * area) by (nonlinear_arith)
        requires
            nx == vx * dist * n,
            ny == vy * dist * n,
    ;
    lemma_rounded_solution(-vy, vx, 0, nx, ny, area);
    assert(ex * ny == (dist * n) * (ex * vy)) by (nonlinear_arith)
        requires
            ny == vy * dist * n,
    ;
    assert(ey * nx == (dist * n) * (ey * vx)) by (nonlinear_arith)
        requires
            nx == vx * dist * n,
    ;
    assert((dist * n) * cross == (dist * n) * (ex * vy) - (dist * n) * (ey * vx))
        by (nonlinear_arith)
        requires
            cross == ex * vy - ey * vx,
    ;
    assert((dist * n) * cross == (sg * (dist * n)) * area) by (nonlinear_arith)
        requires
            cross == sg * area,
    ;
    assert((-ey) * nx + ex * ny == (sg * (dist * n)) * area) by (nonlinear_arith)
        requires
            ex * ny == (dist * n) * (ex * vy),
            ey * nx == (dist * n) * (ey * vx),
            (dist * n) * cross == (dist * n) * (ex * vy) - (dist * n) * (ey * vx),
            (dist * n) * cross == (sg * (dist * n)) * area,
    ;
    lemma_rounded_solution(-ey, ex, sg * (dist * n), nx, ny, area);
    let qx = slide_step_x(v, edge, dist);
    let qy = slide_step_y(v, edge, dist);
    assert((-vy) * qx + vx * qy - 0 == vx * qy - vy * qx) by (nonlinear_arith);
    assert((-ey) * qx + ex * qy == ex * qy - ey * qx) by (nonlinear_arith);
    assert(magnitude(-vy) == magnitude(vy) && magnitude(-ey) == magnitude(ey));
}

/// The point reached from `p` along `v` after the length `dist`; none
/// where `v` has no direction, or the point is out of range.
pub open spec fn pushed_along(p: Point2, v: Vector2, dist: int) -> Option<Point2> {
    if v.norm_floor() == 0 {
        None
    } else {
        point_in_range(p.x + v.scaled_x(dist), p.y + v.scaled_y(dist))
    }
}

/// The area that two vectors in reach span, and a proof that it is small.
fn spanned_area(va: &Vector2, vb: &Vector2) -> (area: i128)
    requires
        va.in_reach(),
        vb.in_reach(),
    ensures
        area == magnitude(va.cross(*vb)),
        0 <= area <= 0x8_0000_0000_0000_0000,
{
    proof {
        lemma_product_bound(va.x as int, vb.y as int, VECTOR_MAX as int, VECTOR_MAX as int);
        lemma_product_bound(va.y as int, vb.x as int, VECTOR_MAX as int, VECTOR_MAX as int);
    }
    let cross: i128 = va.x as i128 * vb.y as i128 - va.y as i128 * vb.x as i128;
    if cross >= 0 {
        cross
    } else {
        -cross
    }
}

/// The point that lies at the distance `dist` from both lines through `p`,
/// the one along `vy` and the one along `vx`, between the two vectors.
pub fn on_bisector_at(p: &Point2, vy: &Vector2, vx: &Vector2, dist: i64) -> (r: Option<Point2>)
    requires
        p.in_range(),
        vy.in_reach(),
        vx.in_reach(),
        coord_in_range(dist as int),
    ensures
        r == bisector_offset(*p, *vy, *vx, dist as int),
        r matches Some(q) ==> q.in_range(),
{
    let area: i128 = spanned_area(vy, vx);
    if area == 0 {
        return None;
    }
    let ny: i128 = vy.norm() as i128;
    let nx: i128 = vx.norm() as i128;
    let ghost m: int = 2 * VECTOR_MAX * VECTOR_MAX;
    proof {
        lemma_product_bound(ny as int, vx.x as int, 2 * VECTOR_MAX, VECTOR_MAX as int);
        lemma_product_bound(nx as int, vy.x as int, 2 * VECTOR_MAX, VECTOR_MAX as int);
        lemma_product_bound(ny as int, vx.y as int, 2 * VECTOR_MAX, VECTOR_MAX as int);
        lemma_product_bound(nx as int, vy.y as int, 2 * VECTOR_MAX, VECTOR_MAX as int);
    }
    let wx: i128 = ny * vx.x as i128 + nx * vy.x as i128;
    let wy: i128 = ny * vx.y as i128 + nx * vy.y as i128;
    proof {
        lemma_product_bound(wx as int, dist as int, 2 * m, COORD_MAX as int);
        lemma_product_bound(wy as int, dist as int, 2 * m, COORD_MAX as int);
        lemma_floor_div_shrinks(wx * dist, area as int, 2 * m * COORD_MAX);
        lemma_floor_div_shrinks(wy * dist, area as int, 2 * m * COORD_MAX);
    }
    let qx: i128 = div_floor(wx * dist as i128, area);
    let qy: i128 = div_floor(wy * dist as i128, area);
    checked_point(p.x as i128 + qx, p.y as i128 + qy)
}

/// The point reached from `p` along `v` at the distance `dist` from the
/// line through `p` along `edge`.
pub fn slide_along(p: &Point2, v: &Vector2, edge: &Vector2, dist: i64) -> (r: Option<Point2>)
    requires
        p.in_range(),
        v.in_reach(),
        edge.in_reach(),
        coord_in_range(dist as int),
    ensures
        r == slid_along(*p, *v, *edge, dist as int),
        r matches Some(q) ==> q.in_range(),
{
    let area: i128 = spanned_area(edge, v);
    if area == 0 {
        return None;
    }
    let n: i128 = edge.norm() as i128;
    let ghost m: int = VECTOR_MAX * COORD_MAX;
    proof {
        lemma_product_bound(v.x as int, dist as int, VECTOR_MAX as int, COORD_MAX as int);
        lemma_product_bound(v.y as int, dist as int, VECTOR_MAX as int, COORD_MAX as int);
        lemma_product_bound(v.x * dist, n as int, m, 2 * VECTOR_MAX);
        lemma_product_bound(v.y * dist, n as int, m, 2 * VECTOR_MAX);
        lemma_floor_div_shrinks(v.x * dist * n, area as int, m * (2 * VECTOR_MAX));
        lemma_floor_div_shrinks(v.y * dist * n, area as int, m * (2 * VECTOR_MAX));
    }
    let qx: i128 = div_floor(v.x as i128 * dist as i128 * n, area);
    let qy: i128 = div_floor(v.y as i128 * dist as i128 * n, area);
    checked_point(p.x as i128 + qx, p.y as i128 + qy)
}

/// The point reached from `p` along `v` after the length `dist`.
pub fn push_along(p: &Point2, v: &Vector2, dist: i64) -> (r: Option<Point2>)
    requires
        p.in_range(),
        v.in_reach(),
        coord_in_range(dist as int),
    ensures
        r == pushed_along(*p, *v, dist as int),
        r matches Some(q) ==> q.in_range(),
{
    match v.scaled_to(dist) {
        None => None,
        Some(step) => checked_point(p.x as i128 + step.x as i128, p.y as i128 + step.y as i128),
    }
}

/// A quadrilateral patch of the corridor, given by its four corners, with
/// the three edges that the interpolation works on.
#[derive(Clone, Copy, Debug, PartialEq, Eq, Structural)]
pub struct Cell {
    /// The corner at the bottom left.
    pub x00: Point2,
    /// The corner at the top left.
    pub x01: Point2,
    /// The corner at the bottom right.
    pub x10: Point2,
    /// The corner at the top right.
    pub x11: Point2,
    /// The left edge, from the bottom up.
    pub vy: Vector2,
    /// The bottom edge, from left to right.
    pub vx1: Vector2,
    /// The top edge, from left to right.
    pub vx2: Vector2,
}

impl Cell {
    /// The cell with the given corners.
    pub open spec fn made_of(x00: Point2, x01: Point2, x11: Point2, x10: Point2) -> Cell {
        Cell {
            x00,
            x01,
            x10,
            x11,
            vy: Vector2 { x: (x01.x - x00.x) as i64, y: (x01.y - x00.y) as i64 },
            vx1: Vector2 { x: (x10.x - x00.x) as i64, y: (x10.y - x00.y) as i64 },
            vx2: Vector2 { x: (x11.x - x01.x) as i64, y: (x11.y - x01.y) as i64 },
        }
    }

    /// The corners are in range and the three edges are the differences of
    /// the corners that they join.
    pub open spec fn wf(self) -> bool {
        &&& self.x00.in_range()
        &&& self.x01.in_range()
        &&& self.x10.in_range()
        &&& self.x11.in_range()
        &&& self.vy.x == self.x01.x - self.x00.x
        &&& self.vy.y == self.x01.y - self.x00.y
        &&& self.vx1.x == self.x10.x - self.x00.x
        &&& self.vx1.y == self.x10.y - self.x00.y
        &&& self.vx2.x == self.x11.x - self.x01.x
        &&& self.vx2.y == self.x11.y - self.x01.y
    }

    /// The corners are in order: the right ones to the right of the left
    /// ones and the top ones above the bottom ones.
    pub open spec fn valid(self) -> bool {
        &&& self.x10.x > self.x00.x
        &&& self.x01.y > self.x00.y
        &&& self.x11.x > self.x01.x
        &&& self.x11.y > self.x10.y
    }

    /// How far the point at the fractions `x` and `y` lies from the bottom
    /// left corner.
    pub open spec fn relative_point(self, x: int, y: int) -> Point2 {
        Point2 {
            x: bilinear_offset(self.vy.x as int, self.vx1.x as int, self.vx2.x as int, x, y) as i64,
            y: bilinear_offset(self.vy.y as int, self.vx1.y as int, self.vx2.y as int, x, y) as i64,
        }
    }

    /// The point at the fraction `x` of the way from left to right and at
    /// the fraction `y` of the way from the bottom up.
    pub open spec fn point_at(self, x: int, y: int) -> Point2 {
        Point2 {
            x: (self.x00.x + bilinear_offset(
                self.vy.x as int,
                self.vx1.x as int,
                self.vx2.x as int,
                x,
                y,
            )) as i64,
            y: (self.x00.y + bilinear_offset(
                self.vy.y as int,
                self.vx1.y as int,
                self.vx2.y as int,
                x,
                y,
            )) as i64,
        }
    }

    /// The point of the lattice of `nx` by `ny` cells in the column `col`
    /// and the row `row`, both counted from zero at the bottom left corner.
    pub open spec fn lattice_point(self, nx: int, ny: int, col: int, row: int) -> Point2 {
        self.point_at(floor_div(col * UNIT, nx), floor_div(row * UNIT, ny))
    }

    /// The cell in the column `col` and the row `row` of the cell's
    /// partition into `nx` by `ny` cells: its corners are the four points of
    /// the lattice round it.
    pub open spec fn sub_cell(self, nx: int, ny: int, col: int, row: int) -> Cell {
        Cell::made_of(
            self.lattice_point(nx, ny, col, row),
            self.lattice_point(nx, ny, col, row + 1),
            self.lattice_point(nx, ny, col + 1, row + 1),
            self.lattice_point(nx, ny, col + 1, row),
        )
    }

    /// `cells` is the partition of the cell into `nx` by `ny` cells, row by
    /// row from the bottom and in each row from the left.
    pub open spec fn is_partition(self, nx: int, ny: int, cells: Seq<Cell>) -> bool {
        &&& cells.len() == nx * ny
        &&& forall|k: int|
            0 <= k < cells.len() ==> #[trigger] cells[k] == self.sub_cell(nx, ny, k % nx, k / nx)
    }

    /// The right edge, from the bottom up.
    pub open spec fn right_edge(self) -> Vector2 {
        Vector2 { x: (self.x11.x - self.x10.x) as i64, y: (self.x11.y - self.x10.y) as i64 }
    }

    /// The cell between two waypoints: its left corners are the ends of the
    /// first one's range and its right corners those of the second one's.
    pub open spec fn between(prev: Waypoint, next: Waypoint) -> Cell {
        Cell::made_of(
            Point2 { x: prev.x, y: prev.range.bottom },
            Point2 { x: prev.x, y: prev.range.top },
            Point2 { x: next.x, y: next.range.top },
            Point2 { x: next.x, y: next.range.bottom },
        )
    }

    /// The cell whose edges lie at the distance `dist` inside the edges of
    /// this one: each corner is moved along the bisector of its angle.
    /// None where a corner has no angle or leaves the range.
    pub open spec fn shrunk(self, dist: int) -> Option<Cell> {
        let right = self.right_edge();
        match (
            bisector_offset(self.x00, self.vy, self.vx1, dist),
            bisector_offset(self.x01, self.vy.reversed(), self.vx2, dist),
            bisector_offset(self.x11, right.reversed(), self.vx2.reversed(), dist),
            bisector_offset(self.x10, right, self.vx1.reversed(), dist),
        ) {
            (Some(x00), Some(x01), Some(x11), Some(x10)) => Some(
                Cell::made_of(x00, x01, x11, x10),
            ),
            _ => None,
        }
    }

    /// The cell whose corners are moved by `dist` along the side edges,
    /// the bottom ones upward and the top ones downward.  None where a side
    /// edge has no direction or a corner leaves the range.
    pub open spec fn shrunk_y(self, dist: int) -> Option<Cell> {
        let right = self.right_edge();
        match (
            pushed_along(self.x00, self.vy, dist),
            pushed_along(self.x01, self.vy, -dist),
            pushed_along(self.x11, right, -dist),
            pushed_along(self.x10, right, dist),
        ) {
            (Some(x00), Some(x01), Some(x11), Some(x10)) => Some(
                Cell::made_of(x00, x01, x11, x10),
            ),
            _ => None,
        }
    }

    /// The part of the cell within the distance `dist` of its bottom edge.
    /// None where a side edge runs along the bottom edge or a corner leaves
    /// the range.
    pub open spec fn bottom_slice(self, dist: int) -> Option<Cell> {
        match (
            slid_along(self.x00, self.vy, self.vx1, dist),
            slid_along(self.x10, self.right_edge(), self.vx1, dist),
        ) {
            (Some(x01), Some(x11)) => Some(Cell::made_of(self.x00, x01, x11, self.x10)),
            _ => None,
        }
    }

    /// The part of the cell within the distance `dist` of its top edge.
    /// None where a side edge runs along the top edge or a corner leaves
    /// the range.
    pub open spec fn top_slice(self, dist: int) -> Option<Cell> {
        match (
            slid_along(self.x01, self.vy.reversed(), self.vx2, dist),
            slid_along(self.x11, self.right_edge().reversed(), self.vx2, dist),
        ) {
            (Some(x00), Some(x10)) => Some(Cell::made_of(x00, self.x01, self.x11, x10)),
            _ => None,
        }
    }

    /// A cell with edges at the distance `radius` inside the edges of this
    /// one exists and has its corners in order.
    pub open spec fn has_room_for(self, radius: int) -> bool {
        match self.shrunk(radius) {
            Some(inner) => inner.valid(),
            None => false,
        }
    }

    /// The cell with the given corners.
    pub fn new(x00: &Point2, x01: &Point2, x11: &Point2, x10: &Point2) -> (c: Cell)
        requires
            x00.in_range(),
            x01.in_range(),
            x11.in_range(),
            x10.in_range(),
        ensures
            c == Cell::made_of(*x00, *x01, *x11, *x10),
            c.wf(),
    {
        Cell {
            x00: *x00,
            x01: *x01,
            x10: *x10,
            x11: *x11,
            vy: Vector2 { x: x01.x - x00.x, y: x01.y - x00.y },
            vx1: Vector2 { x: x10.x - x00.x, y: x10.y - x00.y },
            vx2: Vector2 { x: x11.x - x01.x, y: x11.y - x01.y },
        }
    }

    /// The cell with the given corners: bottom left, top left, top right,
    /// bottom right.
    pub fn new_from_pos(bl: &Position, tl: &Position, tr: &Position, br: &Position) -> (c: Cell)
        requires
            bl.in_range(),
            tl.in_range(),
            tr.in_range(),
            br.in_range(),
        ensures
            c == Cell::made_of(*bl, *tl, *tr, *br),
            c.wf(),
    {
        Cell::new(bl, tl, tr, br)
    }

    /// The corners, clockwise from the bottom right one as the second
    /// coordinate grows downward: bottom right, top right, top left,
    /// bottom left.
    pub fn get_points(&self) -> (v: Vec<Position>)
        ensures
            v@ == seq![self.x10, self.x11, self.x01, self.x00],
    {
        let mut v: Vec<Position> = Vec::new();
        v.push(self.x10);
        v.push(self.x11);
        v.push(self.x01);
        v.push(self.x00);
        assert(v@ =~= seq![self.x10, self.x11, self.x01, self.x00]);
        v
    }

    /// Tells whether the corners are in order.
    pub fn is_valid(&self) -> (b: bool)
        ensures
            b == self.valid(),
    {
        let a = self.x10.x > self.x00.x;
        let b = self.x01.y > self.x00.y;
        let c = self.x11.x > self.x01.x;
        let d = self.x11.y > self.x10.y;
        a && b && c && d
    }

    /// The point at the fraction `x` of the way from left to right and at
    /// the fraction `y` of the way from the bottom up.  The edge from left
    /// to right is the bottom edge at zero, the top edge at one, and their
    /// mean in between; fractions below zero or above one lead out of the
    /// cell.
    pub fn get_point(&self, x: i64, y: i64) -> (p: Position)
        requires
            self.wf(),
            -FRACTION_MAX <= x <= FRACTION_MAX,
            -FRACTION_MAX <= y <= FRACTION_MAX,
        ensures
            p == self.point_at(x as int, y as int),
            p.x == self.x00.x + bilinear_offset(
                self.vy.x as int,
                self.vx1.x as int,
                self.vx2.x as int,
                x as int,
                y as int,
            ),
            p.y == self.x00.y + bilinear_offset(
                self.vy.y as int,
                self.vx1.y as int,
                self.vx2.y as int,
                x as int,
                y as int,
            ),
            is_unit_fraction(x as int) && is_unit_fraction(y as int) ==> p.in_range(),
    {
        let dx: i64 = bilinear(self.vy.x, self.vx1.x, self.vx2.x, x, y);
        let dy: i64 = bilinear(self.vy.y, self.vx1.y, self.vx2.y, x, y);
        proof {
            if is_unit_fraction(x as int) && is_unit_fraction(y as int) {
                self.lemma_point_in_range(x as int, y as int);
            }
        }
        Position { x: self.x00.x + dx, y: self.x00.y + dy }
    }

    /// How far the point at the fractions `x` and `y` lies from the bottom
    /// left corner.
    pub fn get_relative_point(&self, x: i64, y: i64) -> (p: Position)
        requires
            self.wf(),
            -FRACTION_MAX <= x <= FRACTION_MAX,
            -FRACTION_MAX <= y <= FRACTION_MAX,
        ensures
            p == self.relative_point(x as int, y as int),
    {
        let dx: i64 = bilinear(self.vy.x, self.vx1.x, self.vx2.x, x, y);
        let dy: i64 = bilinear(self.vy.y, self.vx1.y, self.vx2.y, x, y);
        Position { x: dx, y: dy }
    }

    /// The point in the middle of the cell.
    pub fn get_center(&self) -> (p: Position)
        requires
            self.wf(),
        ensures
            p == self.point_at(UNIT / 2, UNIT / 2),
            p.in_range(),
    {
        self.get_point(UNIT / 2, UNIT / 2)
    }

    /// A point of the bottom edge, drawn at random.
    pub fn place_at_bottom(&self, rng: &mut StdRng) -> (p: Position)
        requires
            self.wf(),
        ensures
            exists|x: int| is_unit_fraction(x) && p == self.point_at(x, 0),
            p.in_range(),
    {
        let x: i64 = draw_fraction(rng);
        self.get_point(x, 0)
    }

    /// The points of the lattice of `nx` by `ny` cells, row by row from the
    /// bottom and in each row from the left.
    fn lattice(&self, nx: usize, ny: usize) -> (points: Vec<Position>)
        requires
            self.wf(),
            nx > 0,
            ny > 0,
            (nx + 1) * (ny + 1) <= usize::MAX,
        ensures
            points@.len() == (nx + 1) * (ny + 1),
            forall|k: int|
                0 <= k < points@.len() ==> #[trigger] points@[k] == self.lattice_point(
                    nx as int,
                    ny as int,
                    k % (nx + 1),
                    k / (nx + 1),
                ),
            forall|k: int| 0 <= k < points@.len() ==> (#[trigger] points@[k]).in_range(),
    {
        let mut points: Vec<Position> = Vec::new();
        let mut row: usize = 0;
        proof {
            assert(nx + 1 <= (nx + 1) * (ny + 1) && ny + 1 <= (nx + 1) * (ny + 1))
                by (nonlinear_arith)
                requires
                    nx > 0,
                    ny > 0,
            ;
        }
        while row <= ny
            invariant
                self.wf(),
                nx < usize::MAX,
                ny < usize::MAX,
                nx > 0,
                ny > 0,
                (nx + 1) * (ny + 1) <= usize::MAX,
                row <= ny + 1,
                points@.len() == row * (nx + 1),
                forall|k: int|
                    0 <= k < points@.len() ==> #[trigger] points@[k] == self.lattice_point(
                        nx as int,
                        ny as int,
                        k % (nx + 1),
                        k / (nx + 1),
                    ),
                forall|k: int| 0 <= k < points@.len() ==> (#[trigger] points@[k]).in_range(),
            decreases ny + 1 - row,
        {
            let y: i64 = lattice_fraction(row, ny);
            let mut col: usize = 0;
            while col <= nx
                invariant
                    self.wf(),
                    nx < usize::MAX,
                    nx > 0,
                    ny > 0,
                    (nx + 1) * (ny + 1) <= usize::MAX,
                    row <= ny,
                    col <= nx + 1,
                    y == floor_div(row * UNIT, ny as int),
                    is_unit_fraction(y as int),
                    points@.len() == row * (nx + 1) + col,
                    forall|k: int|
                        0 <= k < points@.len() ==> #[trigger] points@[k] == self.lattice_point(
                            nx as int,
                            ny as int,
                            k % (nx + 1),
                            k / (nx + 1),
                        ),
                    forall|k: int| 0 <= k < points@.len() ==> (#[trigger] points@[k]).in_range(),
                decreases nx + 1 - col,
            {
                let x: i64 = lattice_fraction(col, nx);
                let p: Position = self.get_point(x, y);
                proof {
                    lemma_grid_bounds(nx as int + 1, ny as int + 1, col as int, row as int);
                }
                points.push(p);
                col = col + 1;
            }
            proof {
                assert(row * (nx + 1) + (nx + 1) == (row + 1) * (nx + 1)) by (nonlinear_arith);
            }
            row = row + 1;
        }
        proof {
            assert(points@.len() == (nx + 1) * (ny + 1)) by (nonlinear_arith)
                requires
                    points@.len() == row * (nx + 1),
                    row == ny + 1,
            ;
        }
        points
    }

    /// The partition of the cell into `number_col` by `number_row` cells,
    /// row by row from the bottom and in each row from the left.  Each
    /// corner of a cell of the partition is a point of the lattice that
    /// divides the fractions from zero to one evenly, so neighbours have
    /// their common corners in common.  Without columns or rows there are
    /// no cells.
    pub fn split_xy(&self, number_col: i32, number_row: i32) -> (cells: Vec<Cell>)
        requires
            self.wf(),
            number_col >= 0,
            number_row >= 0,
            (number_col + 1) * (number_row + 1) <= usize::MAX,
        ensures
            self.is_partition(number_col as int, number_row as int, cells@),
            forall|k: int| 0 <= k < cells@.len() ==> (#[trigger] cells@[k]).wf(),
    {
        let mut cells: Vec<Cell> = Vec::new();
        if number_col == 0 || number_row == 0 {
            assert(number_col * number_row == 0) by (nonlinear_arith)
                requires
                    number_col == 0 || number_row == 0,
            ;
            return cells;
        }
        let nx: usize = number_col as usize;
        let ny: usize = number_row as usize;
        let points: Vec<Position> = self.lattice(nx, ny);
        let mut row: usize = 0;
        while row < ny
            invariant
                self.wf(),
                nx == number_col,
                ny == number_row,
                nx > 0,
                ny > 0,
                (nx + 1) * (ny + 1) <= usize::MAX,
                row <= ny,
                points@.len() == (nx + 1) * (ny + 1),
                forall|k: int|
                    0 <= k < points@.len() ==> #[trigger] points@[k] == self.lattice_point(
                        nx as int,
                        ny as int,
                        k % (nx + 1),
                        k / (nx + 1),
                    ),
                forall|k: int| 0 <= k < points@.len() ==> (#[trigger] points@[k]).in_range(),
                cells@.len() == row * nx,
                forall|k: int|
                    0 <= k < cells@.len() ==> #[trigger] cells@[k] == self.sub_cell(
                        nx as int,
                        ny as int,
                        k % (nx as int),
                        k / (nx as int),
                    ),
                forall|k: int| 0 <= k < cells@.len() ==> (#[trigger] cells@[k]).wf(),
            decreases ny - row,
        {
            let mut col: usize = 0;
            while col < nx
                invariant
                    self.wf(),
                    nx > 0,
                    ny > 0,
                    (nx + 1) * (ny + 1) <= usize::MAX,
                    row < ny,
                    col <= nx,
                    points@.len() == (nx + 1) * (ny + 1),
                    forall|k: int|
                        0 <= k < points@.len() ==> #[trigger] points@[k] == self.lattice_point(
                            nx as int,
                            ny as int,
                            k % (nx + 1),
                            k / (nx + 1),
                        ),
                    forall|k: int| 0 <= k < points@.len() ==> (#[trigger] points@[k]).in_range(),
                    cells@.len() == row * nx + col,
                    forall|k: int|
                        0 <= k < cells@.len() ==> #[trigger] cells@[k] == self.sub_cell(
                            nx as int,
                            ny as int,
                            k % (nx as int),
                            k / (nx as int),
                        ),
                    forall|k: int| 0 <= k < cells@.len() ==> (#[trigger] cells@[k]).wf(),
                decreases nx - col,
            {
                proof {
                    lemma_grid_bounds(nx as int + 1, ny as int + 1, col as int, row as int);
                    lemma_grid_bounds(nx as int + 1, ny as int + 1, col as int + 1, row as int);
                    lemma_grid_bounds(nx as int + 1, ny as int + 1, col as int, row as int + 1);
                    lemma_grid_bounds(nx as int + 1, ny as int + 1, col as int + 1, row as int + 1);
                    lemma_grid_bounds(nx as int, ny as int, col as int, row as int);
                    assert((row + 1) * (nx + 1) == row * (nx + 1) + (nx + 1)) by (nonlinear_arith);
                }
                let bottom_left: usize = row * (nx + 1) + col;
                let top_left: usize = bottom_left + (nx + 1);
                let c = Cell::new_from_pos(
                    &points[bottom_left],
                    &points[top_left],
                    &points[top_left + 1],
                    &points[bottom_left + 1],
                );
                cells.push(c);
                col = col + 1;
            }
            proof {
                assert(row * nx + nx == (row + 1) * nx) by (nonlinear_arith);
            }
            row = row + 1;
        }
        proof {
            assert(cells@.len() == number_col * number_row) by (nonlinear_arith)
                requires
                    cells@.len() == row * nx,
                    row == number_row,
                    nx == number_col,
            ;
        }
        cells
    }

    /// The partition of the cell into `number` by `number` cells.
    pub fn split(&self, number: i32) -> (cells: Vec<Cell>)
        requires
            self.wf(),
            number >= 0,
            (number + 1) * (number + 1) <= usize::MAX,
        ensures
            self.is_partition(number as int, number as int, cells@),
            forall|k: int| 0 <= k < cells@.len() ==> (#[trigger] cells@[k]).wf(),
    {
        self.split_xy(number, number)
    }

    /// The cell between two waypoints that follow each other.
    pub fn new_from_waypoints(prev: &Waypoint, next: &Waypoint) -> (c: Cell)
        requires
            coord_in_range(prev.x as int),
            coord_in_range(next.x as int),
            prev.range.in_range(),
            next.range.in_range(),
        ensures
            c == Cell::between(*prev, *next),
            c.wf(),
            c.valid() <==> prev.x < next.x && prev.range.bottom < prev.range.top
                && next.range.bottom < next.range.top,
    {
        Cell::new(
            &Point2 { x: prev.x, y: prev.range.bottom },
            &Point2 { x: prev.x, y: prev.range.top },
            &Point2 { x: next.x, y: next.range.top },
            &Point2 { x: next.x, y: next.range.bottom },
        )
    }

    /// The point at the fractions `x` and `y`, and the unit vector that
    /// stands on the line from it to the right edge, a quarter turn to the
    /// left.  No vector where a point leaves the range or lies on the right
    /// edge.
    pub fn get_pos_and_normal(&self, x: i64, y: i64) -> (r: (Position, Option<Vector2>))
        requires
            self.wf(),
            -FRACTION_MAX <= x <= FRACTION_MAX,
            -FRACTION_MAX <= y <= FRACTION_MAX,
        ensures
            r.0 == self.point_at(x as int, y as int),
            r.1 == (if r.0.in_range() && self.point_at(UNIT as int, y as int).in_range() {
                (Vector2 {
                    x: (self.point_at(UNIT as int, y as int).x - r.0.x) as i64,
                    y: (self.point_at(UNIT as int, y as int).y - r.0.y) as i64,
                }).turned_left().rescaled(UNIT as int)
            } else {
                None
            }),
    {
        let p: Position = self.get_point(x, y);
        let p2: Position = self.get_point(UNIT, y);
        if p.is_in_range() && p2.is_in_range() {
            let v: Vector2 = p2.minus(&p);
            (p, v.turn_left().scaled_to(UNIT))
        } else {
            (p, None)
        }
    }

    /// The unit vector that stands on the bottom edge and points into the
    /// cell; none for a bottom edge without direction.
    pub fn get_normal_bottom(&self) -> (n: Option<Vector2>)
        requires
            self.wf(),
        ensures
            n == self.vx1.turned_left().rescaled(UNIT as int),
    {
        self.vx1.turn_left().scaled_to(UNIT)
    }

    /// The unit vector that stands on the top edge and points into the
    /// cell; none for a top edge without direction.
    pub fn get_normal_top(&self) -> (n: Option<Vector2>)
        requires
            self.wf(),
        ensures
            n == self.vx2.turned_right().rescaled(UNIT as int),
    {
        self.vx2.turn_right().scaled_to(UNIT)
    }

    /// The cell whose edges lie at the distance `dist` inside the edges of
    /// this one.
    pub fn get_shrinked(&self, dist: i64) -> (r: Option<Cell>)
        requires
            self.wf(),
            coord_in_range(dist as int),
        ensures
            r == self.shrunk(dist as int),
            r matches Some(c) ==> c.wf(),
    {
        let right: Vector2 = self.x11.minus(&self.x10);
        let x00 = match on_bisector_at(&self.x00, &self.vy, &self.vx1, dist) {
            None => {
                return None;
            },
            Some(p) => p,
        };
        let x01 = match on_bisector_at(&self.x01, &self.vy.reverse(), &self.vx2, dist) {
            None => {
                return None;
            },
            Some(p) => p,
        };
        let x11 = match on_bisector_at(&self.x11, &right.reverse(), &self.vx2.reverse(), dist) {
            None => {
                return None;
            },
            Some(p) => p,
        };
        let x10 = match on_bisector_at(&self.x10, &right, &self.vx1.reverse(), dist) {
            None => {
                return None;
            },
            Some(p) => p,
        };
        Some(Cell::new(&x00, &x01, &x11, &x10))
    }

    /// The cell whose corners are moved by `dist` along the side edges,
    /// the bottom ones upward and the top ones downward.
    pub fn get_shrinked_y(&self, dist: i64) -> (r: Option<Cell>)
        requires
            self.wf(),
            coord_in_range(dist as int),
        ensures
            r == self.shrunk_y(dist as int),
            r matches Some(c) ==> c.wf(),
    {
        let right: Vector2 = self.x11.minus(&self.x10);
        let x00 = match push_along(&self.x00, &self.vy, dist) {
            None => {
                return None;
            },
            Some(p) => p,
        };
        let x01 = match push_along(&self.x01, &self.vy, -dist) {
            None => {
                return None;
            },
            Some(p) => p,
        };
        let x11 = match push_along(&self.x11, &right, -dist) {
            None => {
                return None;
            },
            Some(p) => p,
        };
        let x10 = match push_along(&self.x10, &right, dist) {
            None => {
                return None;
            },
            Some(p) => p,
        };
        Some(Cell::new(&x00, &x01, &x11, &x10))
    }

    /// The part of the cell within the distance `dist` of its bottom edge,
    /// measured at right angles to that edge.
    pub fn get_bottom_slice(&self, dist: i64) -> (r: Option<Cell>)
        requires
            self.wf(),
            coord_in_range(dist as int),
        ensures
            r == self.bottom_slice(dist as int),
            r matches Some(c) ==> c.wf(),
    {
        let right: Vector2 = self.x11.minus(&self.x10);
        let x01 = match slide_along(&self.x00, &self.vy, &self.vx1, dist) {
            None => {
                return None;
            },
            Some(p) => p,
        };
        let x11 = match slide_along(&self.x10, &right, &self.vx1, dist) {
            None => {
                return None;
            },
            Some(p) => p,
        };
        Some(Cell::new(&self.x00, &x01, &x11, &self.x10))
    }

    /// The part of the cell within the distance `dist` of its top edge,
    /// measured at right angles to that edge.
    pub fn get_top_slice(&self, dist: i64) -> (r: Option<Cell>)
        requires
            self.wf(),
            coord_in_range(dist as int),
        ensures
            r == self.top_slice(dist as int),
            r matches Some(c) ==> c.wf(),
    {
        let right: Vector2 = self.x11.minus(&self.x10);
        let x00 = match slide_along(&self.x01, &self.vy.reverse(), &self.vx2, dist) {
            None => {
                return None;
            },
            Some(p) => p,
        };
        let x10 = match slide_along(&self.x11, &right.reverse(), &self.vx2, dist) {
            None => {
                return None;
            },
            Some(p) => p,
        };
        Some(Cell::new(&x00, &self.x01, &self.x11, &x10))
    }

    /// Tells whether a disc of the given radius can lie in the cell
    /// without crossing an edge: whether the cell shrunk by the radius
    /// exists and has its corners in order.
    pub fn can_contains(&self, radius: i64) -> (b: bool)
        requires
            self.wf(),
            coord_in_range(radius as int),
        ensures
            b == self.has_room_for(radius as int),
    {
        match self.get_shrinked(radius) {
            Some(inner) => inner.is_valid(),
            None => false,
        }
    }

    /// A cell between two waypoints whose corners are in order has room for
    /// a disc only if it is longer than the disc is wide: its sides run
    /// straight up, so shrinking moves them inward by the radius exactly.
    pub proof fn lemma_clearance_needs_length(prev: Waypoint, next: Waypoint, radius: int)
        requires
            prev.in_range(),
            next.in_range(),
            Cell::between(prev, next).valid(),
            Cell::between(prev, next).has_room_for(radius),
        ensures
            next.x - prev.x > 2 * radius,
    {
        let cell = Cell::between(prev, next);
        let right = cell.right_edge();
        assert(bisector_step_x(cell.vy, cell.vx1, radius) == radius) by {
            lemma_bisector_beside_upright(cell.vy, cell.vx1, radius);
            assert(1 * radius == radius);
        }
        assert(bisector_step_x(right, cell.vx1.reversed(), radius) == -radius) by {
            lemma_bisector_beside_upright(right, cell.vx1.reversed(), radius);
            assert((-1) * radius == -radius);
        }
        let inner = cell.shrunk(radius).unwrap();
        assert(inner.x00.x == prev.x + radius);
        assert(inner.x10.x == next.x - radius);
    }

    /// An upright rectangle has room for a disc exactly if it is longer and
    /// higher than the disc is wide: shrinking moves each side inward by the
    /// radius exactly.
    pub proof fn lemma_clearance_of_rectangle(prev: Waypoint, next: Waypoint, radius: int)
        requires
            prev.in_range(),
            next.in_range(),
            prev.range == next.range,
            Cell::between(prev, next).valid(),
            radius >= 0,
        ensures
            Cell::between(prev, next).has_room_for(radius) <==> next.x - prev.x > 2 * radius
                && prev.range.top - prev.range.bottom > 2 * radius,
    {
        let cell = Cell::between(prev, next);
        let right = cell.right_edge();
        let x0 = prev.x as int;
        let x1 = next.x as int;
        let low = prev.range.bottom as int;
        let high = prev.range.top as int;
        assert(bisector_offset(cell.x00, cell.vy, cell.vx1, radius) == point_in_range(
            x0 + radius,
            low + radius,
        )) by {
            lemma_bisector_right_angle(cell.vy, cell.vx1, radius);
            assert(1 * radius == radius);
        }
        assert(bisector_offset(cell.x01, cell.vy.reversed(), cell.vx2, radius) == point_in_range(
            x0 + radius,
            high - radius,
        )) by {
            lemma_bisector_right_angle(cell.vy.reversed(), cell.vx2, radius);
            assert(1 * radius == radius && (-1) * radius == -radius);
        }
        assert(bisector_offset(cell.x11, right.reversed(), cell.vx2.reversed(), radius)
            == point_in_range(x1 - radius, high - radius)) by {
            lemma_bisector_right_angle(right.reversed(), cell.vx2.reversed(), radius);
            assert((-1) * radius == -radius);
        }
        assert(bisector_offset(cell.x10, right, cell.vx1.reversed(), radius) == point_in_range(
            x1 - radius,
            low + radius,
        )) by {
            lemma_bisector_right_angle(right, cell.vx1.reversed(), radius);
            assert(1 * radius == radius && (-1) * radius == -radius);
        }
        if x1 - x0 > 2 * radius && high - low > 2 * radius {
            let inner = Cell::made_of(
                Point2 { x: (x0 + radius) as i64, y: (low + radius) as i64 },
                Point2 { x: (x0 + radius) as i64, y: (high - radius) as i64 },
                Point2 { x: (x1 - radius) as i64, y: (high - radius) as i64 },
                Point2 { x: (x1 - radius) as i64, y: (low + radius) as i64 },
            );
            assert(cell.shrunk(radius) == Some(inner));
            assert(inner.valid());
        } else if cell.has_room_for(radius) {
            let inner = cell.shrunk(radius).unwrap();
            assert(inner.x00 == (Point2 { x: (x0 + radius) as i64, y: (low + radius) as i64 }));
            assert(inner.x01 == (Point2 { x: (x0 + radius) as i64, y: (high - radius) as i64 }));
            assert(inner.x10 == (Point2 { x: (x1 - radius) as i64, y: (low + radius) as i64 }));
        }
    }

    /// A cell between two waypoints has room for a disc where it is longer
    /// than the disc is wide and, at either end, higher than the disc is
    /// wide by more than one step and what its edges take away: twice the
    /// radius times how far, over the length of the cell, the two edges lean
    /// toward each other as seen from that end.
    pub proof fn lemma_room_between(prev: Waypoint, next: Waypoint, radius: int)
        requires
            prev.in_range(),
            next.in_range(),
            Cell::between(prev, next).valid(),
            radius >= 0,
            next.x - prev.x > 2 * radius,
            (prev.range.extent() - 2 * radius - 1) * (next.x - prev.x) > 2 * radius * (rise(
                next.range.bottom - prev.range.bottom,
            ) + fall(next.range.top - prev.range.top)),
            (next.range.extent() - 2 * radius - 1) * (next.x - prev.x) > 2 * radius * (fall(
                next.range.bottom - prev.range.bottom,
            ) + rise(next.range.top - prev.range.top)),
        ensures
            Cell::between(prev, next).has_room_for(radius),
    {
        let cell = Cell::between(prev, next);
        let right = cell.right_edge();
        let d = next.x - prev.x;
        let h0 = prev.range.extent();
        let h1 = next.range.extent();
        let db = next.range.bottom - prev.range.bottom;
        let dt = next.range.top - prev.range.top;
        let n1 = cell.vx1.norm_floor();
        let n2 = cell.vx2.norm_floor();
        lemma_norm_bounds(cell.vx1);
        lemma_norm_bounds(cell.vx2);
        let back1 = cell.vx1.reversed();
        let back2 = cell.vx2.reversed();
        assert(back1.norm_squared() == cell.vx1.norm_squared()) by (nonlinear_arith)
            requires
                back1.x == -cell.vx1.x,
                back1.y == -cell.vx1.y,
                back1.norm_squared() == back1.x * back1.x + back1.y * back1.y,
                cell.vx1.norm_squared() == cell.vx1.x * cell.vx1.x + cell.vx1.y * cell.vx1.y,
        ;
        assert(back2.norm_squared() == cell.vx2.norm_squared()) by (nonlinear_arith)
            requires
                back2.x == -cell.vx2.x,
                back2.y == -cell.vx2.y,
                back2.norm_squared() == back2.x * back2.x + back2.y * back2.y,
                cell.vx2.norm_squared() == cell.vx2.x * cell.vx2.x + cell.vx2.y * cell.vx2.y,
        ;
        let up0 = floor_div((db + n1) * radius, d);
        let down0 = floor_div((dt - n2) * radius, d);
        let down1 = floor_div(((-dt) - n2) * radius, d);
        let up1 = floor_div(((-db) + n1) * radius, d);
        lemma_inset_along_upright(db, n1, d, radius);
        lemma_inset_along_upright(dt, n2, d, radius);
        lemma_inset_along_upright(-dt, n2, d, radius);
        lemma_inset_along_upright(-db, n1, d, radius);
        // the corners at either end stay in order
        assert(h0 + down0 - up0 > 0) by (nonlinear_arith)
            requires
                d > 0,
                up0 * d <= d * radius + 2 * radius * rise(db),
                down0 * d > -(d * radius) - 2 * radius * fall(dt) - d,
                (h0 - 2 * radius - 1) * d > 2 * radius * (rise(db) + fall(dt)),
        ;
        assert(h1 + down1 - up1 > 0) by (nonlinear_arith)
            requires
                d > 0,
                up1 * d <= d * radius + 2 * radius * rise(-db),
                down1 * d > -(d * radius) - 2 * radius * fall(-dt) - d,
                (h1 - 2 * radius - 1) * d > 2 * radius * (fall(db) + rise(dt)),
                rise(-db) == fall(db),
                fall(-dt) == rise(dt),
        ;
        // the four corners of the shrunk cell
        let x00 = Point2 { x: (prev.x + radius) as i64, y: (prev.range.bottom + up0) as i64 };
        let x01 = Point2 { x: (prev.x + radius) as i64, y: (prev.range.top + down0) as i64 };
        let x11 = Point2 { x: (next.x - radius) as i64, y: (next.range.top + down1) as i64 };
        let x10 = Point2 { x: (next.x - radius) as i64, y: (next.range.bottom + up1) as i64 };
        assert(bisector_offset(cell.x00, cell.vy, cell.vx1, radius) == Some(x00)) by {
            assert(1 * radius == radius && 1 * n1 == n1);
            lemma_corner_beside_upright(cell.x00, cell.vy, cell.vx1, radius, radius, up0);
        }
        assert(bisector_offset(cell.x01, cell.vy.reversed(), cell.vx2, radius) == Some(x01)) by {
            assert(1 * radius == radius && (-1) * n2 == -n2);
            lemma_corner_beside_upright(
                cell.x01,
                cell.vy.reversed(),
                cell.vx2,
                radius,
                radius,
                down0,
            );
        }
        assert(bisector_offset(cell.x11, right.reversed(), back2, radius) == Some(x11)) by {
            assert((-1) * radius == -radius && (-1) * n2 == -n2);
            lemma_corner_beside_upright(
                cell.x11,
                right.reversed(),
                back2,
                radius,
                -radius,
                down1,
            );
        }
        assert(bisector_offset(cell.x10, right, back1, radius) == Some(x10)) by {
            assert((-1) * radius == -radius && 1 * n1 == n1);
            lemma_corner_beside_upright(cell.x10, right, back1, radius, -radius, up1);
        }
        assert(cell.shrunk(radius) == Some(Cell::made_of(x00, x01, x11, x10)));
        assert(Cell::made_of(x00, x01, x11, x10).valid());
    }

    /// The partition covers the cell: its four outer corners are the cell's
    /// corners.
    pub proof fn lemma_split_partition(self, nx: int, ny: int)
        requires
            self.wf(),
            nx > 0,
            ny > 0,
        ensures
            self.sub_cell(nx, ny, 0, 0).x00 == self.x00,
            self.sub_cell(nx, ny, nx - 1, 0).x10 == self.x10,
            self.sub_cell(nx, ny, 0, ny - 1).x01 == self.x01,
            self.sub_cell(nx, ny, nx - 1, ny - 1).x11 == self.x11,
    {
        self.lemma_corners();
        assert(0 * UNIT == 0);
        lemma_floor_div_exact(0, nx);
        lemma_floor_div_exact(0, ny);
        assert(0 * nx == 0 && 0 * ny == 0);
        assert(nx * UNIT == UNIT * nx) by (nonlinear_arith);
        assert(ny * UNIT == UNIT * ny) by (nonlinear_arith);
        lemma_floor_div_exact(UNIT as int, nx);
        lemma_floor_div_exact(UNIT as int, ny);
        assert(self.lattice_point(nx, ny, 0, 0) == self.x00);
        assert(self.lattice_point(nx, ny, nx, 0) == self.x10);
        assert(self.lattice_point(nx, ny, 0, ny) == self.x01);
        assert(self.lattice_point(nx, ny, nx, ny) == self.x11);
    }

    /// The partition leaves no gap: the cell in the column `col` and the
    /// row `row` has its two right corners in common with the cell to its
    /// right, and its two top corners with the cell above it.
    pub proof fn lemma_split_neighbours(self, nx: int, ny: int, col: int, row: int)
        ensures
            self.sub_cell(nx, ny, col, row).x10 == self.sub_cell(nx, ny, col + 1, row).x00,
            self.sub_cell(nx, ny, col, row).x11 == self.sub_cell(nx, ny, col + 1, row).x01,
            self.sub_cell(nx, ny, col, row).x01 == self.sub_cell(nx, ny, col, row + 1).x00,
            self.sub_cell(nx, ny, col, row).x11 == self.sub_cell(nx, ny, col, row + 1).x10,
    {
    }

    /// Inside the unit square the interpolated point lies between the
    /// least and the greatest of the corners on each axis, so it is in
    /// range.
    pub proof fn lemma_point_in_range(self, x: int, y: int)
        requires
            self.wf(),
            is_unit_fraction(x),
            is_unit_fraction(y),
        ensures
            coord_in_range(
                self.x00.x + bilinear_offset(
                    self.vy.x as int,
                    self.vx1.x as int,
                    self.vx2.x as int,
                    x,
                    y,
                ),
            ),
            coord_in_range(
                self.x00.y + bilinear_offset(
                    self.vy.y as int,
                    self.vx1.y as int,
                    self.vx2.y as int,
                    x,
                    y,
                ),
            ),
            self.point_at(x, y).in_range(),
    {
        lemma_bilinear_inside(
            self.x00.x as int,
            self.x01.x as int,
            self.x10.x as int,
            self.x11.x as int,
            x,
            y,
            -COORD_MAX,
            COORD_MAX as int,
        );
        lemma_bilinear_inside(
            self.x00.y as int,
            self.x01.y as int,
            self.x10.y as int,
            self.x11.y as int,
            x,
            y,
            -COORD_MAX,
            COORD_MAX as int,
        );
    }

    /// The interpolation gives each corner back: the bottom left one for
    /// the fractions zero and zero, the bottom right one for one and zero,
    /// the top left one for zero and one and the top right one for one and
    /// one.
    pub proof fn lemma_corners(self)
        requires
            self.wf(),
        ensures
            self.point_at(0, 0) == self.x00,
            self.point_at(UNIT as int, 0) == self.x10,
            self.point_at(0, UNIT as int) == self.x01,
            self.point_at(UNIT as int, UNIT as int) == self.x11,
    {
        lemma_bilinear_corners(self.vy.x as int, self.vx1.x as int, self.vx2.x as int);
        lemma_bilinear_corners(self.vy.y as int, self.vx1.y as int, self.vx2.y as int);
    }
}

/// A point of the cell, drawn at random.
pub fn place_disc_in_cell(cell: &Cell, rng: &mut StdRng) -> (p: Position)
    requires
        cell.wf(),
    ensures
        exists|x: int, y: int|
            is_unit_fraction(x) && is_unit_fraction(y) && p == cell.point_at(x, y),
        p.in_range(),
{
    let x: i64 = draw_fraction(rng);
    let y: i64 = draw_fraction(rng);
    cell.get_point(x, y)
}

/// The cells between two lines of points, the corridor's top and its
/// bottom: one between each pair of points and the next, as far as both
/// lines go.
pub open spec fn cells_of_lines(top_pts: Seq<Position>, bot_pts: Seq<Position>) -> Seq<Cell> {
    let pairs = if top_pts.len() < bot_pts.len() {
        top_pts.len()
    } else {
        bot_pts.len()
    };
    if pairs < 2 {
        Seq::<Cell>::empty()
    } else {
        Seq::new(
            (pairs - 1) as nat,
            |i: int| Cell::made_of(bot_pts[i], top_pts[i], top_pts[i + 1], bot_pts[i + 1]),
        )
    }
}

/// The cells between two lines of points, the corridor's top and its
/// bottom.
pub fn create_cells(top_pts: &Vec<Position>, bot_pts: &Vec<Position>) -> (cells: Vec<Cell>)
    requires
        forall|i: int| 0 <= i < top_pts@.len() ==> (#[trigger] top_pts@[i]).in_range(),
        forall|i: int| 0 <= i < bot_pts@.len() ==> (#[trigger] bot_pts@[i]).in_range(),
    ensures
        cells@ == cells_of_lines(top_pts@, bot_pts@),
        forall|i: int| 0 <= i < cells@.len() ==> (#[trigger] cells@[i]).wf(),
{
    let mut cells: Vec<Cell> = Vec::new();
    let pairs: usize = if top_pts.len() < bot_pts.len() {
        top_pts.len()
    } else {
        bot_pts.len()
    };
    if pairs < 2 {
        assert(cells@ =~= cells_of_lines(top_pts@, bot_pts@));
        return cells;
    }
    let mut i: usize = 0;
    while i + 1 < pairs
        invariant
            pairs >= 2,
            pairs <= top_pts@.len(),
            pairs <= bot_pts@.len(),
            i + 1 <= pairs,
            forall|k: int| 0 <= k < top_pts@.len() ==> (#[trigger] top_pts@[k]).in_range(),
            forall|k: int| 0 <= k < bot_pts@.len() ==> (#[trigger] bot_pts@[k]).in_range(),
            cells@.len() == i,
            forall|k: int|
                0 <= k < i ==> #[trigger] cells@[k] == Cell::made_of(
                    bot_pts@[k],
                    top_pts@[k],
                    top_pts@[k + 1],
                    bot_pts@[k + 1],
                ),
            forall|k: int| 0 <= k < cells@.len() ==> (#[trigger] cells@[k]).wf(),
        decreases pairs - i,
    {
        let c = Cell::new_from_pos(&bot_pts[i], &top_pts[i], &top_pts[i + 1], &bot_pts[i + 1]);
        cells.push(c);
        i = i + 1;
    }
    assert(cells@ =~= cells_of_lines(top_pts@, bot_pts@));
    cells
}

} // verus!
