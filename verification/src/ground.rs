//! The ground of the world: a line of points that rises and falls at random
//! by slopes of one in one, the sky above it, and the turn from heights
//! above the ground to distances below the top of the screen.

use vstd::prelude::*;
use rand::rngs::StdRng;
use crate::arith::{div_floor, floor_div};
use crate::random::{choose_slope, draw_between};
use crate::terrain::SlopeDirection;
use crate::unit::{Bounds2D, Point2, Position, Size};

verus! {

/// The length below which what is left of the ground is one segment.
pub const SHORTEST_SEGMENT: i64 = 10;

/// The corners of the sky over the given bounds, from the least corner
/// round by the side of the greatest height.
pub fn build_sky(bounds: &Bounds2D) -> (points: Vec<Position>)
    ensures
        points@ == seq![
            bounds.min,
            Point2 { x: bounds.min.x, y: bounds.max.y },
            bounds.max,
            Point2 { x: bounds.max.x, y: bounds.min.y },
        ],
{
    let mut points: Vec<Position> = Vec::new();
    points.push(bounds.min);
    points.push(Position { x: bounds.min.x, y: bounds.max.y });
    points.push(bounds.max);
    points.push(Position { x: bounds.max.x, y: bounds.min.y });
    assert(points@ =~= seq![
        bounds.min,
        Point2 { x: bounds.min.x, y: bounds.max.y },
        bounds.max,
        Point2 { x: bounds.max.x, y: bounds.min.y },
    ]);
    points
}

/// The points with the heights counted downward from the world's top.
pub open spec fn inverted(world_size: Size, points: Seq<Position>) -> Seq<Position> {
    Seq::new(
        points.len(),
        |i: int| Point2 { x: points[i].x, y: (world_size.y - points[i].y) as i64 },
    )
}

/// The points with the world's two bottom corners put round them.
pub open spec fn closed_to_ground(world_size: Size, points: Seq<Position>) -> Seq<Position> {
    seq![Point2 { x: 0, y: 0 }] + points + seq![Point2 { x: world_size.x, y: 0 }]
}

/// Turns heights above the ground into distances below the world's top.
/// With `insert` the world's two bottom corners are put round the points
/// first, so that they close a polygon.
pub fn invert_pos(world_size: &Size, points: &mut Vec<Position>, insert: bool)
    requires
        forall|i: int|
            0 <= i < old(points)@.len() ==> i64::MIN <= world_size.y - (#[trigger] old(
                points,
            )@[i]).y <= i64::MAX,
    ensures
        final(points)@ == inverted(
            *world_size,
            if insert {
                closed_to_ground(*world_size, old(points)@)
            } else {
                old(points)@
            },
        ),
{
    if insert {
        points.insert(0, Position { x: 0, y: 0 });
        points.push(Position { x: world_size.x, y: 0 });
        assert(points@ =~= closed_to_ground(*world_size, old(points)@));
    }
    let ghost source = points@;
    let mut turned: Vec<Position> = Vec::new();
    let mut i: usize = 0;
    while i < points.len()
        invariant
            i <= points@.len(),
            points@ == source,
            forall|k: int|
                0 <= k < source.len() ==> i64::MIN <= world_size.y - (#[trigger] source[k]).y
                    <= i64::MAX,
            turned@.len() == i,
            forall|k: int|
                0 <= k < i ==> #[trigger] turned@[k] == (Point2 {
                    x: source[k].x,
                    y: (world_size.y - source[k].y) as i64,
                }),
        decreases points@.len() - i,
    {
        let p: Position = points[i];
        turned.push(Position { x: p.x, y: world_size.y - p.y });
        i = i + 1;
    }
    assert(turned@ =~= inverted(*world_size, source));
    *points = turned;
}

/// One of the three slope directions, picked at random.
pub fn random_direction(rng: &mut StdRng) -> SlopeDirection {
    let mut all: Vec<SlopeDirection> = Vec::new();
    all.push(SlopeDirection::Flat);
    all.push(SlopeDirection::Up);
    all.push(SlopeDirection::Down);
    choose_slope(&all, rng)
}

/// `length` is a length that a segment may have where `room` is left: all
/// of the room where that is less than the shortest segment, and otherwise
/// anything from the shortest segment to the room.
pub open spec fn is_segment_length(room: int, length: int) -> bool {
    if room < SHORTEST_SEGMENT {
        length == room
    } else {
        SHORTEST_SEGMENT <= length <= room
    }
}

/// The length of a segment, picked at random for the room that is left.
pub fn random_length(max: i64, rng: &mut StdRng) -> (length: i64)
    requires
        max < i64::MAX,
    ensures
        is_segment_length(max as int, length as int),
{
    if max < SHORTEST_SEGMENT {
        return max;
    }
    draw_between(rng, SHORTEST_SEGMENT, max)
}

/// The ground's height after a segment of the given length in the given
/// direction: it rises or falls by the segment's length and stays between
/// zero and half the world's height.
pub open spec fn next_ground_height(
    y: int,
    world_size: Size,
    direction: SlopeDirection,
    length: int,
) -> int {
    let raw = match direction {
        SlopeDirection::Flat => y,
        SlopeDirection::Up => y + length,
        SlopeDirection::Down => y - length,
    };
    let lifted = if raw > 0 {
        raw
    } else {
        0
    };
    let cap = floor_div(world_size.y as int, 2);
    if lifted < cap {
        lifted
    } else {
        cap
    }
}

/// The room for a segment that begins at `x`: what is left of the world,
/// and no more than the longest segment.
pub open spec fn segment_room(x: int, world_size: Size, max_length: int) -> int {
    if world_size.x - x < max_length {
        world_size.x - x
    } else {
        max_length
    }
}

/// `next` follows `prev` on a ground: one segment further along, at the
/// height to which one of the three directions leads.
pub open spec fn is_ground_step(prev: Position, next: Position, world_size: Size, max_length: int)
    -> bool {
    exists|direction: SlopeDirection, length: int|
        {
            &&& is_segment_length(segment_room(prev.x as int, world_size, max_length), length)
            &&& next.x == prev.x + length
            &&& next.y == #[trigger] next_ground_height(
                prev.y as int,
                world_size,
                direction,
                length,
            )
        }
}

/// `points` is a ground across a world of the given size: it begins at the
/// origin, each point follows the one before it by one segment until the
/// end of the world is reached, and the world's bottom right corner closes
/// it.
pub open spec fn is_ground(points: Seq<Position>, world_size: Size, max_length: int) -> bool {
    &&& points.len() >= 2
    &&& points[0] == (Point2 { x: 0, y: 0 })
    &&& points.last() == (Point2 { x: world_size.x, y: 0 })
    &&& points[points.len() - 2].x == (if world_size.x > 0 {
        world_size.x
    } else {
        0
    })
    &&& forall|i: int|
        1 <= i < points.len() - 1 ==> is_ground_step(
            points[i - 1],
            #[trigger] points[i],
            world_size,
            max_length,
        )
}

/// A ground across a world of the given size, in segments no longer than
/// `max_length`.
pub fn build_terrain_across(world_size: &Size, max_length: i64, rng: &mut StdRng) -> (points: Vec<
    Position,
>)
    requires
        world_size.in_range(),
        1 <= max_length < i64::MAX,
    ensures
        is_ground(points@, *world_size, max_length as int),
{
    let mut points: Vec<Position> = Vec::new();
    points.push(Position { x: 0, y: 0 });
    let cap: i64 = div_floor(world_size.y as i128, 2) as i64;
    let mut length: i64 = 0;
    let mut height: i64 = 0;
    while length < world_size.x
        invariant
            world_size.in_range(),
            1 <= max_length < i64::MAX,
            cap == floor_div(world_size.y as int, 2),
            points@.len() >= 1,
            points@[0] == (Point2 { x: 0, y: 0 }),
            points@.last() == (Point2 { x: length, y: height }),
            0 <= length,
            length <= world_size.x || length == 0,
            height == 0 || 0 <= height <= cap || cap <= height <= 0,
            forall|i: int|
                1 <= i < points@.len() ==> is_ground_step(
                    points@[i - 1],
                    #[trigger] points@[i],
                    *world_size,
                    max_length as int,
                ),
        decreases world_size.x - length,
    {
        let direction: SlopeDirection = random_direction(rng);
        let left: i64 = world_size.x - length;
        let room: i64 = if left < max_length { left } else { max_length };
        let segment: i64 = random_length(room, rng);
        let raw: i64 = match direction {
            SlopeDirection::Flat => height,
            SlopeDirection::Up => height + segment,
            SlopeDirection::Down => height - segment,
        };
        let lifted: i64 = if raw > 0 { raw } else { 0 };
        let y: i64 = if lifted < cap { lifted } else { cap };
        let ghost prev = points@.last();
        let next = Position { x: length + segment, y };
        proof {
            assert(y == next_ground_height(
                prev.y as int,
                *world_size,
                direction,
                segment as int,
            ));
            assert(is_ground_step(prev, next, *world_size, max_length as int));
        }
        points.push(next);
        length = length + segment;
        height = y;
    }
    points.push(Position { x: world_size.x, y: 0 });
    points
}

/// The points moved by the vector from the origin to `by`.
pub open spec fn moved_by(points: Seq<Position>, by: Position) -> Seq<Position> {
    Seq::new(
        points.len(),
        |i: int| Point2 { x: (points[i].x + by.x) as i64, y: (points[i].y + by.y) as i64 },
    )
}

/// A ground across the given bounds, in segments no longer than
/// `max_length`: a ground across a world of the bounds' size, moved to
/// the bounds' least corner.
pub fn build_terrain(bounds: &Bounds2D, max_length: i64, rng: &mut StdRng) -> (points: Vec<Position>)
    requires
        bounds.in_range(),
        bounds.min.x <= bounds.max.x,
        bounds.min.y <= bounds.max.y,
        bounds.max.x - bounds.min.x <= crate::unit::COORD_MAX,
        bounds.max.y - bounds.min.y <= crate::unit::COORD_MAX,
        1 <= max_length < i64::MAX,
    ensures
        exists|ground: Seq<Position>|
            #[trigger] is_ground(
                ground,
                Point2 {
                    x: (bounds.max.x - bounds.min.x) as i64,
                    y: (bounds.max.y - bounds.min.y) as i64,
                },
                max_length as int,
            ) && points@ == moved_by(ground, bounds.min),
{
    let size: Size = bounds.get_size();
    let ground: Vec<Position> = build_terrain_across(&size, max_length, rng);
    let mut points: Vec<Position> = Vec::new();
    let mut i: usize = 0;
    while i < ground.len()
        invariant
            i <= ground@.len(),
            bounds.in_range(),
            max_length >= 1,
            size.in_range(),
            size.x >= 0,
            size.y >= 0,
            is_ground(ground@, size, max_length as int),
            points@.len() == i,
            forall|k: int|
                0 <= k < i ==> #[trigger] points@[k] == (Point2 {
                    x: (ground@[k].x + bounds.min.x) as i64,
                    y: (ground@[k].y + bounds.min.y) as i64,
                }),
        decreases ground@.len() - i,
    {
        let p: Position = ground[i];
        proof {
            lemma_ground_in_world(ground@, size, max_length as int, i as int);
        }
        points.push(Position { x: p.x + bounds.min.x, y: p.y + bounds.min.y });
        i = i + 1;
    }
    assert(points@ =~= moved_by(ground@, bounds.min));
    assert(size == (Point2 {
        x: (bounds.max.x - bounds.min.x) as i64,
        y: (bounds.max.y - bounds.min.y) as i64,
    }));
    assert(is_ground(ground@, size, max_length as int) && points@ == moved_by(
        ground@,
        bounds.min,
    ));
    points
}

/// Every point of a ground across a world lies in the world's lower half:
/// not before zero nor beyond the world's width, and not below zero nor
/// above half the world's height.
pub proof fn lemma_ground_in_world(points: Seq<Position>, world_size: Size, max_length: int, i: int)
    requires
        is_ground(points, world_size, max_length),
        world_size.x >= 0,
        world_size.y >= 0,
        max_length >= 1,
        0 <= i < points.len(),
    ensures
        0 <= points[i].x <= world_size.x,
        0 <= points[i].y <= floor_div(world_size.y as int, 2),
    decreases i,
{
    if 1 <= i < points.len() - 1 {
        lemma_ground_in_world(points, world_size, max_length, i - 1);
        let prev = points[i - 1];
        let next = points[i];
        assert(is_ground_step(prev, next, world_size, max_length));
    }
}

} // verus!
