//! Outlines of the things that are drawn into the world: the ship, and the
//! spikes that grow from the corridor's bottom and top.

use vstd::prelude::*;
use rand::rngs::StdRng;
use crate::arith::{div_floor, floor_div, lemma_floor_div_between, lemma_product_bound};
use crate::random::draw_between;
use crate::unit::{
    coord_in_range, is_unit_fraction, Bounds1D, Point2, Position, Vector2, COORD_MAX, UNIT,
};

verus! {

/// The outline of the ship's hull, for a ship of the given size.
pub fn base_ship(dist: i64) -> (points: Vec<Position>)
    requires
        coord_in_range(dist as int),
    ensures
        points@ == seq![
            Point2 { x: (3 * dist) as i64, y: 0 },
            Point2 { x: (-2 * dist) as i64, y: (2 * dist) as i64 },
            Point2 { x: (-dist) as i64, y: 0 },
            Point2 { x: (-dist) as i64, y: (-dist) as i64 },
        ],
{
    let mut result: Vec<Position> = Vec::new();
    result.push(Position { x: 3 * dist, y: 0 });
    result.push(Position { x: -2 * dist, y: 2 * dist });
    result.push(Position { x: -dist, y: 0 });
    result.push(Position { x: -dist, y: -dist });
    assert(result@ =~= seq![
        Point2 { x: (3 * dist) as i64, y: 0 },
        Point2 { x: (-2 * dist) as i64, y: (2 * dist) as i64 },
        Point2 { x: (-dist) as i64, y: 0 },
        Point2 { x: (-dist) as i64, y: (-dist) as i64 },
    ]);
    result
}

/// The outline of the ship's cockpit, for a ship of the given size.  Its
/// height is thirteen tenths of the size, rounded down.
pub fn cockpit_ship(dist: i64) -> (points: Vec<Position>)
    requires
        coord_in_range(dist as int),
    ensures
        points@ == seq![
            Point2 { x: (3 * dist) as i64, y: 0 },
            Point2 { x: dist, y: floor_div(13 * dist, 10) as i64 },
            Point2 { x: (-dist) as i64, y: floor_div(13 * dist, 10) as i64 },
        ],
{
    let height: i64 = div_floor(13 * dist as i128, 10) as i64;
    let mut result: Vec<Position> = Vec::new();
    result.push(Position { x: 3 * dist, y: 0 });
    result.push(Position { x: dist, y: height });
    result.push(Position { x: -dist, y: height });
    assert(result@ =~= seq![
        Point2 { x: (3 * dist) as i64, y: 0 },
        Point2 { x: dist, y: floor_div(13 * dist, 10) as i64 },
        Point2 { x: (-dist) as i64, y: floor_div(13 * dist, 10) as i64 },
    ]);
    result
}

/// The fraction of the way along a row of spikes at which the spike of the
/// given index stands.
pub open spec fn spike_place(index: int, nb_side: int) -> int {
    floor_div(index * UNIT, nb_side)
}

/// How much of its height a spike has at the given place: nothing at
/// either end of the row, all of it in the middle, and in between as much
/// as the place is nearer to the middle than to the end.
pub open spec fn spike_factor(place: int) -> int {
    if 2 * place >= UNIT {
        2 * UNIT - 2 * place
    } else {
        2 * place
    }
}

/// The tip of a spike that grows along the unit vector `normal` to the
/// height `dist`, at the place where spikes have the given part of their
/// height.
pub open spec fn spike_tip(normal: Vector2, dist: int, factor: int) -> Point2 {
    Point2 {
        x: floor_div(normal.x * dist * factor, UNIT * UNIT) as i64,
        y: floor_div(normal.y * dist * factor, UNIT * UNIT) as i64,
    }
}

/// `normal` is no longer than a unit vector on either axis.
pub open spec fn within_unit(normal: Vector2) -> bool {
    -UNIT <= normal.x <= UNIT && -UNIT <= normal.y <= UNIT
}

/// `tip` is the tip of a spike along `normal` at the given place, of a
/// height between the bounds.
pub open spec fn is_spike(tip: Position, normal: Vector2, place: int, dist_range: Bounds1D<i64>)
    -> bool {
    exists|dist: int|
        dist_range.min <= dist <= dist_range.max && tip == #[trigger] spike_tip(
            normal,
            dist,
            spike_factor(place),
        )
}

/// `tips` and `places` are a row of spikes along `normal`: one more than
/// `nb_side` of them, evenly placed, each with a height between the bounds.
pub open spec fn is_spike_row(
    tips: Seq<Position>,
    places: Seq<i64>,
    normal: Vector2,
    nb_side: int,
    dist_range: Bounds1D<i64>,
) -> bool {
    &&& tips.len() == nb_side + 1
    &&& places.len() == nb_side + 1
    &&& forall|i: int| 0 <= i <= nb_side ==> #[trigger] places[i] == spike_place(i, nb_side)
    &&& forall|i: int|
        0 <= i <= nb_side ==> is_spike(
            #[trigger] tips[i],
            normal,
            spike_place(i, nb_side),
            dist_range,
        )
}

/// The tip of one spike.
pub fn spike(normal: &Vector2, dist: i64, index: usize, nb_side: usize) -> (r: (Position, i64))
    requires
        within_unit(*normal),
        coord_in_range(dist as int),
        0 < nb_side,
        index <= nb_side,
    ensures
        r.1 == spike_place(index as int, nb_side as int),
        is_unit_fraction(r.1 as int),
        r.0 == spike_tip(*normal, dist as int, spike_factor(r.1 as int)),
        r.0.in_range(),
{
    proof {
        lemma_product_bound(index as int, UNIT as int, nb_side as int, UNIT as int);
        assert(0 <= index * UNIT) by (nonlinear_arith)
            requires
                0 <= index,
        ;
        assert(UNIT * nb_side == nb_side * UNIT) by (nonlinear_arith);
        lemma_floor_div_between(index * UNIT, nb_side as int, 0, UNIT as int);
    }
    let place: i64 = div_floor(index as i128 * UNIT as i128, nb_side as i128) as i64;
    let factor: i64 = if 2 * place >= UNIT { 2 * UNIT - 2 * place } else { 2 * place };
    let ghost bound: int = COORD_MAX * UNIT * UNIT;
    proof {
        lemma_product_bound(normal.x as int, dist as int, UNIT as int, COORD_MAX as int);
        lemma_product_bound(normal.y as int, dist as int, UNIT as int, COORD_MAX as int);
        lemma_product_bound(normal.x * dist, factor as int, UNIT * COORD_MAX, UNIT as int);
        lemma_product_bound(normal.y * dist, factor as int, UNIT * COORD_MAX, UNIT as int);
        lemma_floor_div_between(
            normal.x * dist * factor,
            UNIT * UNIT,
            -COORD_MAX,
            COORD_MAX as int,
        );
        lemma_floor_div_between(
            normal.y * dist * factor,
            UNIT * UNIT,
            -COORD_MAX,
            COORD_MAX as int,
        );
    }
    let d: i128 = UNIT as i128 * UNIT as i128;
    let x: i128 = div_floor(normal.x as i128 * dist as i128 * factor as i128, d);
    let y: i128 = div_floor(normal.y as i128 * dist as i128 * factor as i128, d);
    (Position { x: x as i64, y: y as i64 }, place)
}

/// A row of spikes along the unit vector `normal`: the tips of the spikes,
/// each as seen from its foot, and the places of the feet as fractions of
/// the row.  The heights are drawn at random between the bounds, and
/// lowered toward both ends of the row.
pub fn bump2(normal: &Vector2, nb_side: i32, dist_range: &Bounds1D<i64>, rng: &mut StdRng) -> (r: (
    Vec<Position>,
    Vec<i64>,
))
    requires
        within_unit(*normal),
        nb_side > 0,
        coord_in_range(dist_range.min as int),
        coord_in_range(dist_range.max as int),
        dist_range.min <= dist_range.max,
    ensures
        is_spike_row(r.0@, r.1@, *normal, nb_side as int, *dist_range),
{
    let mut result: Vec<Position> = Vec::new();
    let mut xpos: Vec<i64> = Vec::new();
    let count: usize = nb_side as usize;
    let mut i: usize = 0;
    while i <= count
        invariant
            count == nb_side,
            0 < count < usize::MAX,
            i <= count + 1,
            within_unit(*normal),
            coord_in_range(dist_range.min as int),
            coord_in_range(dist_range.max as int),
            dist_range.min <= dist_range.max,
            result@.len() == i,
            xpos@.len() == i,
            forall|k: int| 0 <= k < i ==> #[trigger] xpos@[k] == spike_place(k, nb_side as int),
            forall|k: int|
                0 <= k < i ==> is_spike(
                    #[trigger] result@[k],
                    *normal,
                    spike_place(k, nb_side as int),
                    *dist_range,
                ),
        decreases count + 1 - i,
    {
        let dist: i64 = draw_between(rng, dist_range.min, dist_range.max);
        let (tip, place) = spike(normal, dist, i, count);
        proof {
            assert(dist_range.min <= dist <= dist_range.max && tip == spike_tip(
                *normal,
                dist as int,
                spike_factor(spike_place(i as int, nb_side as int)),
            ));
            assert(is_spike(tip, *normal, spike_place(i as int, nb_side as int), *dist_range));
        }
        result.push(tip);
        xpos.push(place);
        i = i + 1;
    }
    (result, xpos)
}

/// A row of spikes that grow straight up.
pub fn bump3(nb_side: i32, dist_range: &Bounds1D<i64>, rng: &mut StdRng) -> (r: (
    Vec<Position>,
    Vec<i64>,
))
    requires
        nb_side > 0,
        coord_in_range(dist_range.min as int),
        coord_in_range(dist_range.max as int),
        dist_range.min <= dist_range.max,
    ensures
        is_spike_row(r.0@, r.1@, Vector2 { x: 0, y: UNIT }, nb_side as int, *dist_range),
{
    let normal = Vector2 { x: 0, y: UNIT };
    bump2(&normal, nb_side, dist_range, rng)
}

} // verus!
