//! The corridor: vertical ranges, the step that bends the corridor within
//! its turning circle, and the growth of a corridor across the world.

use vstd::prelude::*;
use rand::rngs::StdRng;
use crate::arith::{
    div_floor, floor_div, lemma_floor_div_between, lemma_product_bound,
};
use crate::cell::Cell;
use crate::geometry::{
    boundary_point, get_boundary_point, get_tangent_vector, lemma_crossing_on_upright,
    lemma_tangent_beside, tangent_line, tangent_vector, Line, VectorRange,
};
use crate::random::{draw_between, draw_fraction};
use crate::unit::{
    coord_in_range, is_unit_fraction, Bounds1D, Point2, Position, Size, Vector2, COORD_MAX, UNIT,
};

verus! {

/// The direction in which a stretch of ground runs.
#[derive(Clone, Copy, Debug, PartialEq, Eq, Structural)]
pub enum SlopeDirection {
    Flat,
    Up,
    Down,
}

/// The vertical span of the corridor at one place along it.
#[derive(Clone, Copy, Debug, PartialEq, Eq, Structural)]
pub struct HeightRange {
    pub bottom: i64,
    pub top: i64,
}

impl HeightRange {
    /// Both ends are coordinates in range.
    pub open spec fn in_range(self) -> bool {
        coord_in_range(self.bottom as int) && coord_in_range(self.top as int)
    }

    /// The distance from the bottom to the top.
    pub open spec fn extent(self) -> int {
        self.top - self.bottom
    }

    /// The range holds nothing: its top is not above its bottom.
    pub open spec fn is_empty(self) -> bool {
        self.top <= self.bottom
    }

    /// `inner` is a range with a top above its bottom that does not leave
    /// `self`.
    pub open spec fn encloses(self, inner: HeightRange) -> bool {
        self.bottom <= inner.bottom < inner.top <= self.top
    }

    /// The range is no lower than the least height and no higher than the
    /// greatest.
    pub open spec fn keeps(self, height_bounds: Bounds1D<i64>) -> bool {
        height_bounds.min <= self.extent() <= height_bounds.max
    }

    /// What of `self` lies above `other`.
    pub open spec fn part_above(self, other: HeightRange) -> HeightRange {
        if self.top > other.top {
            HeightRange { bottom: other.top, top: self.top }
        } else {
            HeightRange { bottom: 0, top: 0 }
        }
    }

    /// What of `self` lies below `other`.
    pub open spec fn part_below(self, other: HeightRange) -> HeightRange {
        if self.bottom < other.bottom {
            HeightRange { bottom: self.bottom, top: other.bottom }
        } else {
            HeightRange { bottom: 0, top: 0 }
        }
    }

    /// The centre of a span of the given height laid into the range, with
    /// the fraction `alloc` of the room that is left put below it.
    pub open spec fn placed(self, height: int, alloc: int) -> Option<int> {
        if self.extent() < height {
            None
        } else {
            Some(
                self.bottom + floor_div(alloc * (self.extent() - height), UNIT as int) + floor_div(
                    height,
                    2,
                ),
            )
        }
    }

    /// The range that stands for no range at all.
    pub fn from_nothing() -> (r: HeightRange)
        ensures
            r == (HeightRange { bottom: 0, top: 0 }),
            r.is_empty(),
    {
        HeightRange { bottom: 0, top: 0 }
    }

    /// The distance from the bottom to the top.
    pub fn size(&self) -> (s: i64)
        requires
            i64::MIN <= self.top - self.bottom <= i64::MAX,
        ensures
            s == self.extent(),
    {
        self.top - self.bottom
    }

    /// Tells whether `other` lies strictly inside the range.
    pub fn contains(&self, other: &Self) -> (b: bool)
        ensures
            b == (self.bottom < other.bottom && self.top > other.top),
    {
        self.bottom < other.bottom && self.top > other.top
    }

    /// Tells whether the range holds nothing.
    pub fn empty(&self) -> (b: bool)
        ensures
            b == self.is_empty(),
    {
        self.top <= self.bottom
    }

    /// Tells whether `inner` has a top above its bottom and does not leave
    /// the range.
    pub fn is_enclosing(&self, inner: &Self) -> (b: bool)
        ensures
            b == self.encloses(*inner),
    {
        self.bottom <= inner.bottom && inner.bottom < inner.top && inner.top <= self.top
    }

    /// The parts of the range that `other` leaves free: first the one
    /// above it, then the one below it.  A part that does not exist is the
    /// range that stands for nothing.
    pub fn diff(&self, other: &Self) -> (r: (HeightRange, HeightRange))
        ensures
            r.0 == self.part_above(*other),
            r.1 == self.part_below(*other),
    {
        let mut space_above = HeightRange::from_nothing();
        let mut space_below = HeightRange::from_nothing();
        if self.top > other.top {
            space_above = HeightRange { bottom: other.top, top: self.top };
        }
        if self.bottom < other.bottom {
            space_below = HeightRange { bottom: self.bottom, top: other.bottom };
        }
        (space_above, space_below)
    }

    /// The centre of a span of the given height laid into the range, with
    /// the fraction `alloc` of the room that is left put below it; none
    /// where the range is lower than `height`.
    pub fn place_at(&self, height: i64, alloc: i64) -> (r: Option<i64>)
        requires
            self.in_range(),
            -COORD_MAX <= height <= COORD_MAX,
            is_unit_fraction(alloc as int),
        ensures
            r is Some <==> self.extent() >= height,
            r matches Some(c) ==> {
                &&& self.placed(height as int, alloc as int) == Some(c as int)
                &&& self.bottom + floor_div(height as int, 2) <= c
                &&& c + (height - floor_div(height as int, 2)) <= self.top
            },
    {
        let room: i64 = self.top - self.bottom - height;
        if room < 0 {
            return None;
        }
        proof {
            lemma_product_bound(alloc as int, room as int, UNIT as int, room as int);
            assert(0 <= alloc * room) by (nonlinear_arith)
                requires
                    0 <= alloc,
                    0 <= room,
            ;
            assert(UNIT * room == room * UNIT) by (nonlinear_arith);
            lemma_floor_div_between(alloc * room, UNIT as int, 0, room as int);
        }
        let below: i128 = div_floor(alloc as i128 * room as i128, UNIT as i128);
        let half: i128 = div_floor(height as i128, 2);
        Some((self.bottom as i128 + below + half) as i64)
    }

    /// The centre of a span of the given height laid at random into the
    /// range; none where the range is lower than `height`.
    pub fn place_within(&self, height: i64, rng: &mut StdRng) -> (r: Option<i64>)
        requires
            self.in_range(),
            -COORD_MAX <= height <= COORD_MAX,
        ensures
            r is Some <==> self.extent() >= height,
            r matches Some(c) ==> {
                &&& exists|alloc: int|
                    is_unit_fraction(alloc) && self.placed(height as int, alloc) == Some(c as int)
                &&& self.bottom + floor_div(height as int, 2) <= c
                &&& c + (height - floor_div(height as int, 2)) <= self.top
            },
    {
        if self.top - self.bottom < height {
            return None;
        }
        let alloc: i64 = draw_fraction(rng);
        self.place_at(height, alloc)
    }
}

/// The length of the next section of a corridor that has come to `posx`
/// and ends at `maxx`: the sampled length, cut to what is left; all that is
/// left where that is less than the shortest section.
pub open spec fn section_length(posx: int, maxx: int, length_bounds: Bounds1D<i64>, sample: int)
    -> int {
    let available = maxx - posx;
    if available < length_bounds.min {
        available
    } else if sample < available {
        sample
    } else {
        available
    }
}

/// The length of the next section for a length sampled between the bounds.
pub fn clamp_section_length(posx: i64, maxx: i64, length_bounds: &Bounds1D<i64>, sample: i64) -> (len:
    i64)
    requires
        i64::MIN <= maxx - posx <= i64::MAX,
    ensures
        len == section_length(posx as int, maxx as int, *length_bounds, sample as int),
{
    let available: i64 = maxx - posx;
    if available < length_bounds.min {
        available
    } else if sample < available {
        sample
    } else {
        available
    }
}

/// The length of the next section, sampled at random between the bounds and
/// cut to what is left of the corridor.
pub fn get_section_length(posx: i64, maxx: i64, length_bounds: &Bounds1D<i64>, rng: &mut StdRng)
    -> (len: i64)
    requires
        i64::MIN <= maxx - posx <= i64::MAX,
        length_bounds.min <= length_bounds.max < i64::MAX,
    ensures
        exists|sample: int|
            length_bounds.min <= sample <= length_bounds.max && len == section_length(
                posx as int,
                maxx as int,
                *length_bounds,
                sample,
            ),
{
    let available: i64 = maxx - posx;
    if available < length_bounds.min {
        assert(available == section_length(
            posx as int,
            maxx as int,
            *length_bounds,
            length_bounds.min as int,
        ));
        available
    } else {
        let sample: i64 = draw_between(rng, length_bounds.min, length_bounds.max);
        clamp_section_length(posx, maxx, length_bounds, sample)
    }
}

/// The three fractions that one bend of the corridor draws.
#[derive(Clone, Copy, Debug, PartialEq, Eq, Structural)]
pub struct BendDraw {
    /// Where in the last range the turning circle is laid.
    pub center: i64,
    /// How far the new top leans from its lowest direction to its highest.
    pub top: i64,
    /// How far the new bottom leans from its lowest direction to its highest.
    pub bottom: i64,
}

impl BendDraw {
    /// Each of the three is a fraction between zero and one.
    pub open spec fn admissible(self) -> bool {
        &&& is_unit_fraction(self.center as int)
        &&& is_unit_fraction(self.top as int)
        &&& is_unit_fraction(self.bottom as int)
    }
}

/// Why a step of the growth gave no range.
#[derive(Clone, Copy, Debug, PartialEq, Eq, Structural)]
pub enum StepError {
    /// The last range is lower than the turning circle's radius.
    NoRoom,
    /// A direction or a point of the construction does not exist, or
    /// nothing was constructed at all.
    Degenerate,
    /// The range that was constructed is empty or leaves the world.
    OutOfWorld,
    /// The range that was constructed is lower than the least height.
    TooNarrow,
}

/// The line straight up at `distance`, through the world's bottom and top.
pub open spec fn world_wall(world: HeightRange, distance: int) -> Line {
    Line(
        Point2 { x: distance as i64, y: world.bottom },
        Point2 { x: distance as i64, y: world.top },
    )
}

/// The directions that the new top may take: from the tangent that ends on
/// the world's bottom to the tangent that ends on the world's top.
pub open spec fn top_cone(o: Point2, world: HeightRange, radius: int, distance: int)
    -> VectorRange {
    VectorRange {
        upward: tangent_vector(o, Point2 { x: distance as i64, y: world.top }, radius, true),
        downward: tangent_vector(o, Point2 { x: distance as i64, y: world.bottom }, radius, false),
    }
}

/// The lowest point that the new bottom may reach below a top at `top_y`:
/// the tallest corridor below it, cut at the world's bottom.
pub open spec fn lowest_bottom(top_y: int, world: HeightRange, tallest: int) -> int {
    if top_y - tallest > world.bottom {
        top_y - tallest
    } else {
        world.bottom as int
    }
}

/// The new top for the direction `v1`: where the wall is met by the line of
/// that direction that touches the circle on the left of the direction.
/// It fails where no such point exists, and where the point lies above the
/// world or not above the world's bottom, however far away.
pub open spec fn top_of_bend(
    world: HeightRange,
    o: Point2,
    radius: int,
    distance: int,
    v1: Vector2,
) -> Result<Point2, StepError> {
    match boundary_point(o, v1, radius, true, world_wall(world, distance)) {
        None => Err(StepError::Degenerate),
        Some(top_pt) => if top_pt.y > world.top || top_pt.y <= world.bottom {
            Err(StepError::OutOfWorld)
        } else {
            Ok(top_pt)
        },
    }
}

/// The directions that the new bottom may take below a top at `top_pt`
/// that was reached in the direction `v1`: from the tangent that ends on
/// the lowest point allowed to the direction of the top.
pub open spec fn bottom_cone(
    world: HeightRange,
    o: Point2,
    height_bounds: Bounds1D<i64>,
    v1: Vector2,
    top_pt: Point2,
) -> VectorRange {
    let floor_pt = Point2 {
        x: top_pt.x,
        y: lowest_bottom(top_pt.y as int, world, height_bounds.max as int) as i64,
    };
    VectorRange {
        upward: v1,
        downward: tangent_vector(o, floor_pt, height_bounds.min as int, false),
    }
}

/// The new range for the direction `v2` of the bottom below a top at
/// `top_pt`.  Its bottom is where the wall is met by the line of that
/// direction that touches the circle on the right of the direction, and no
/// lower than the lowest point allowed: the corridor is no taller than the
/// greatest height and does not leave the world.  It fails where no such
/// point exists, where the range is lower than the least height, and where
/// it is empty.
pub open spec fn bottom_of_bend(
    world: HeightRange,
    o: Point2,
    height_bounds: Bounds1D<i64>,
    distance: int,
    v2: Vector2,
    top_pt: Point2,
) -> Result<HeightRange, StepError> {
    match boundary_point(o, v2, height_bounds.min as int, false, world_wall(world, distance)) {
        None => Err(StepError::Degenerate),
        Some(bot_pt) => {
            let floor = lowest_bottom(top_pt.y as int, world, height_bounds.max as int);
            let bottom = if bot_pt.y > floor {
                bot_pt.y as int
            } else {
                floor
            };
            let range = HeightRange { bottom: bottom as i64, top: top_pt.y };
            if top_pt.y - bottom < height_bounds.min {
                Err(StepError::TooNarrow)
            } else if world.encloses(range) {
                Ok(range)
            } else {
                Err(StepError::OutOfWorld)
            }
        },
    }
}

/// The range at `distance` ahead of a turning circle round `o`.
///
/// The new top is where the wall is met by a tangent to the circle, on the
/// left of its direction, which is drawn from the cone of the top.  The new
/// bottom is where the wall is met by a tangent on the right of its
/// direction, which is drawn between the direction of the top and the
/// tangent that ends on the lowest point allowed; a bottom that would lie
/// lower is that lowest point.  So the new range is no taller than the
/// greatest height, and a range lower than the least height is none.
pub open spec fn bend(
    world: HeightRange,
    o: Point2,
    height_bounds: Bounds1D<i64>,
    distance: int,
    draw: BendDraw,
) -> Result<HeightRange, StepError> {
    let radius = height_bounds.min as int;
    let v1 = top_cone(o, world, radius, distance).blended(draw.top as int);
    match top_of_bend(world, o, radius, distance, v1) {
        Err(e) => Err(e),
        Ok(top_pt) => bottom_of_bend(
            world,
            o,
            height_bounds,
            distance,
            bottom_cone(world, o, height_bounds, v1, top_pt).blended(draw.bottom as int),
            top_pt,
        ),
    }
}

/// The range that follows `segment_range` at `distance` ahead.
///
/// A step no longer than the radius of the turning circle, which is the
/// lower height bound, keeps the range.  Otherwise the circle is laid into
/// the range, its centre where `draw.center` puts it, and the corridor is
/// bent round it.
pub open spec fn tunnel_height(
    world: HeightRange,
    segment_range: HeightRange,
    height_bounds: Bounds1D<i64>,
    distance: int,
    draw: BendDraw,
) -> Result<HeightRange, StepError> {
    let radius = height_bounds.min as int;
    if distance <= radius {
        Ok(segment_range)
    } else if radius < 0 {
        Err(StepError::Degenerate)
    } else {
        match segment_range.placed(radius, draw.center as int) {
            None => Err(StepError::NoRoom),
            Some(center) => bend(
                world,
                Point2 { x: 0, y: center as i64 },
                height_bounds,
                distance,
                draw,
            ),
        }
    }
}

/// A range that a step gives lies in the world, if the step bent the
/// corridor or the range before it lay in the world.
pub proof fn lemma_step_stays_in_world(
    world: HeightRange,
    segment_range: HeightRange,
    height_bounds: Bounds1D<i64>,
    distance: int,
    draw: BendDraw,
)
    requires
        world.encloses(segment_range) || distance > height_bounds.min,
    ensures
        tunnel_height(world, segment_range, height_bounds, distance, draw) matches Ok(range)
            ==> world.encloses(range),
{
}

/// A range that a step gives is no lower than the least height and no
/// higher than the greatest, if the step bent the corridor or the range
/// before it was so.
pub proof fn lemma_step_keeps_heights(
    world: HeightRange,
    segment_range: HeightRange,
    height_bounds: Bounds1D<i64>,
    distance: int,
    draw: BendDraw,
)
    requires
        world.in_range(),
        coord_in_range(height_bounds.max as int),
        segment_range.keeps(height_bounds) || distance > height_bounds.min,
    ensures
        tunnel_height(world, segment_range, height_bounds, distance, draw) matches Ok(range)
            ==> range.keeps(height_bounds),
{
}

/// The directions that the new top may take.
fn get_top_cone(world: &HeightRange, o: Point2, radius: i64, distance: i64) -> (cone: VectorRange)
    requires
        world.in_range(),
        o.in_range(),
        o.x == 0,
        0 <= radius < distance <= COORD_MAX,
    ensures
        cone == top_cone(o, *world, radius as int, distance as int),
        cone.in_reach(),
{
    let low = Point2 { x: distance, y: world.bottom };
    let high = Point2 { x: distance, y: world.top };
    proof {
        lemma_tangent_beside(o, low, radius as int, distance as int);
        lemma_tangent_beside(o, high, radius as int, distance as int);
    }
    let down: Vector2 = get_tangent_vector(o, low, radius, false);
    let up: Vector2 = get_tangent_vector(o, high, radius, true);
    VectorRange { upward: up, downward: down }
}

/// The new top for the direction `v1`.
fn find_top(world: &HeightRange, o: Point2, radius: i64, distance: i64, v1: Vector2) -> (r: Result<
    Point2,
    StepError,
>)
    requires
        world.in_range(),
        o.in_range(),
        v1.in_reach(),
        0 <= radius < distance <= COORD_MAX,
    ensures
        r == top_of_bend(*world, o, radius as int, distance as int, v1),
        r matches Ok(top_pt) ==> top_pt.x == distance && world.bottom < top_pt.y <= world.top,
{
    let wall = Line(Point2 { x: distance, y: world.bottom }, Point2 { x: distance, y: world.top });
    let top_pt: Point2 = match get_boundary_point(o, v1, radius, true, wall) {
        None => {
            return Err(StepError::Degenerate);
        },
        Some(p) => p,
    };
    if top_pt.y > world.top || top_pt.y <= world.bottom {
        return Err(StepError::OutOfWorld);
    }
    proof {
        let line = tangent_line(o, v1, radius as int, true).unwrap();
        lemma_crossing_on_upright(line, wall, distance as int);
    }
    Ok(top_pt)
}

/// The directions that the new bottom may take below the new top.
fn get_bottom_cone(
    world: &HeightRange,
    o: Point2,
    height_bounds: &Bounds1D<i64>,
    distance: i64,
    v1: Vector2,
    top_pt: Point2,
) -> (cone: VectorRange)
    requires
        world.in_range(),
        o.in_range(),
        o.x == 0,
        v1.in_reach(),
        0 <= height_bounds.min <= height_bounds.max <= COORD_MAX,
        height_bounds.min < distance <= COORD_MAX,
        top_pt.x == distance,
        world.bottom < top_pt.y <= world.top,
    ensures
        cone == bottom_cone(*world, o, *height_bounds, v1, top_pt),
        cone.in_reach(),
{
    let reach: i64 = top_pt.y - height_bounds.max;
    let floor_y: i64 = if reach > world.bottom { reach } else { world.bottom };
    let floor_pt = Point2 { x: top_pt.x, y: floor_y };
    proof {
        lemma_tangent_beside(o, floor_pt, height_bounds.min as int, distance as int);
    }
    let down: Vector2 = get_tangent_vector(o, floor_pt, height_bounds.min, false);
    VectorRange { upward: v1, downward: down }
}

/// The new range for the direction `v2` of the bottom below the new top.
fn find_bottom(
    world: &HeightRange,
    o: Point2,
    height_bounds: &Bounds1D<i64>,
    distance: i64,
    v2: Vector2,
    top_pt: Point2,
) -> (r: Result<HeightRange, StepError>)
    requires
        world.in_range(),
        o.in_range(),
        v2.in_reach(),
        0 <= height_bounds.min <= height_bounds.max <= COORD_MAX,
        height_bounds.min < distance <= COORD_MAX,
        world.bottom < top_pt.y <= world.top,
    ensures
        r == bottom_of_bend(*world, o, *height_bounds, distance as int, v2, top_pt),
        r matches Ok(range) ==> world.encloses(range) && range.keeps(*height_bounds),
{
    let wall = Line(Point2 { x: distance, y: world.bottom }, Point2 { x: distance, y: world.top });
    let bot_pt: Point2 = match get_boundary_point(o, v2, height_bounds.min, false, wall) {
        None => {
            return Err(StepError::Degenerate);
        },
        Some(p) => p,
    };
    let reach: i64 = top_pt.y - height_bounds.max;
    let floor_y: i64 = if reach > world.bottom { reach } else { world.bottom };
    let bottom: i64 = if bot_pt.y > floor_y { bot_pt.y } else { floor_y };
    let range = HeightRange { bottom, top: top_pt.y };
    if (top_pt.y as i128) - (bottom as i128) < height_bounds.min as i128 {
        Err(StepError::TooNarrow)
    } else if world.is_enclosing(&range) {
        Ok(range)
    } else {
        Err(StepError::OutOfWorld)
    }
}

/// Bends the corridor round a turning circle whose centre is `o`.
pub fn bend_round(
    world: &HeightRange,
    o: Point2,
    height_bounds: &Bounds1D<i64>,
    distance: i64,
    draw: &BendDraw,
) -> (r: Result<HeightRange, StepError>)
    requires
        world.in_range(),
        o.in_range(),
        o.x == 0,
        0 <= height_bounds.min <= height_bounds.max <= COORD_MAX,
        height_bounds.min < distance <= COORD_MAX,
        draw.admissible(),
    ensures
        r == bend(*world, o, *height_bounds, distance as int, *draw),
        r matches Ok(range) ==> world.encloses(range) && range.keeps(*height_bounds),
{
    let radius: i64 = height_bounds.min;
    let cone1: VectorRange = get_top_cone(world, o, radius, distance);
    let v1: Vector2 = cone1.blend(draw.top);
    let top_pt: Point2 = match find_top(world, o, radius, distance, v1) {
        Err(e) => {
            return Err(e);
        },
        Ok(p) => p,
    };
    let cone2: VectorRange = get_bottom_cone(world, o, height_bounds, distance, v1, top_pt);
    let v2: Vector2 = cone2.blend(draw.bottom);
    find_bottom(world, o, height_bounds, distance, v2, top_pt)
}

/// The range that follows `segment_range` at `distance` ahead, for the
/// three fractions in `draw`.
pub fn shape_tunnel_height(
    world_range: &HeightRange,
    segment_range: &HeightRange,
    height_bounds: &Bounds1D<i64>,
    distance: i64,
    draw: &BendDraw,
) -> (r: Result<HeightRange, StepError>)
    requires
        world_range.in_range(),
        segment_range.in_range(),
        coord_in_range(height_bounds.min as int),
        coord_in_range(height_bounds.max as int),
        height_bounds.min <= height_bounds.max,
        coord_in_range(distance as int),
        draw.admissible(),
    ensures
        r == tunnel_height(
            *world_range,
            *segment_range,
            *height_bounds,
            distance as int,
            *draw,
        ),
        r matches Ok(range) ==> (world_range.encloses(*segment_range) || distance
            > height_bounds.min) ==> world_range.encloses(range),
        r matches Ok(range) ==> (segment_range.keeps(*height_bounds) || distance
            > height_bounds.min) ==> range.keeps(*height_bounds),
{
    let radius: i64 = height_bounds.min;
    if distance <= radius {
        return Ok(HeightRange { bottom: segment_range.bottom, top: segment_range.top });
    }
    if radius < 0 {
        return Err(StepError::Degenerate);
    }
    match segment_range.place_at(radius, draw.center) {
        None => Err(StepError::NoRoom),
        Some(center) => {
            proof {
                assert(0 <= floor_div(radius as int, 2) <= radius);
            }
            bend_round(world_range, Point2 { x: 0, y: center }, height_bounds, distance, draw)
        },
    }
}

/// The range that follows `segment_range` at `distance` ahead, bent at
/// random within the turning circle.  Each fraction is drawn where it is
/// used: none for a step that keeps the range or finds no room, and none
/// for the bottom where the top has failed.
pub fn get_tunnel_height2(
    world_range: &HeightRange,
    segment_range: &HeightRange,
    height_bounds: &Bounds1D<i64>,
    distance: i64,
    rng: &mut StdRng,
) -> (r: Result<HeightRange, StepError>)
    requires
        world_range.in_range(),
        segment_range.in_range(),
        coord_in_range(height_bounds.min as int),
        coord_in_range(height_bounds.max as int),
        height_bounds.min <= height_bounds.max,
        coord_in_range(distance as int),
    ensures
        exists|draw: BendDraw|
            draw.admissible() && r == tunnel_height(
                *world_range,
                *segment_range,
                *height_bounds,
                distance as int,
                draw,
            ),
        r matches Ok(range) ==> (world_range.encloses(*segment_range) || distance
            > height_bounds.min) ==> world_range.encloses(range),
        r matches Ok(range) ==> (segment_range.keeps(*height_bounds) || distance
            > height_bounds.min) ==> range.keeps(*height_bounds),
{
    let radius: i64 = height_bounds.min;
    let ghost none = BendDraw { center: 0, top: 0, bottom: 0 };
    if distance <= radius {
        let kept = HeightRange { bottom: segment_range.bottom, top: segment_range.top };
        assert(none.admissible() && Ok::<HeightRange, StepError>(kept) == tunnel_height(
            *world_range,
            *segment_range,
            *height_bounds,
            distance as int,
            none,
        ));
        return Ok(kept);
    }
    if radius < 0 {
        assert(none.admissible() && Err::<HeightRange, StepError>(StepError::Degenerate)
            == tunnel_height(*world_range, *segment_range, *height_bounds, distance as int, none));
        return Err(StepError::Degenerate);
    }
    let center: i64 = match segment_range.place_within(radius, rng) {
        None => {
            assert(none.admissible() && Err::<HeightRange, StepError>(StepError::NoRoom)
                == tunnel_height(
                *world_range,
                *segment_range,
                *height_bounds,
                distance as int,
                none,
            ));
            return Err(StepError::NoRoom);
        },
        Some(c) => c,
    };
    let ghost alloc: int = choose|alloc: int|
        is_unit_fraction(alloc) && segment_range.placed(radius as int, alloc) == Some(
            center as int,
        );
    proof {
        assert(0 <= floor_div(radius as int, 2) <= radius);
    }
    let o = Point2 { x: 0, y: center };
    let cone1: VectorRange = get_top_cone(world_range, o, radius, distance);
    let v1: Vector2 = cone1.gen_random_dir(rng);
    let ghost lean1: int = choose|t: int| is_unit_fraction(t) && v1 == cone1.blended(t);
    let top_pt: Point2 = match find_top(world_range, o, radius, distance, v1) {
        Err(e) => {
            let ghost draw = BendDraw { center: alloc as i64, top: lean1 as i64, bottom: 0 };
            assert(draw.admissible() && Err::<HeightRange, StepError>(e) == tunnel_height(
                *world_range,
                *segment_range,
                *height_bounds,
                distance as int,
                draw,
            ));
            return Err(e);
        },
        Ok(p) => p,
    };
    let cone2: VectorRange = get_bottom_cone(world_range, o, height_bounds, distance, v1, top_pt);
    let v2: Vector2 = cone2.gen_random_dir(rng);
    let ghost lean2: int = choose|t: int| is_unit_fraction(t) && v2 == cone2.blended(t);
    let r = find_bottom(world_range, o, height_bounds, distance, v2, top_pt);
    let ghost draw = BendDraw { center: alloc as i64, top: lean1 as i64, bottom: lean2 as i64 };
    assert(draw.admissible() && r == tunnel_height(
        *world_range,
        *segment_range,
        *height_bounds,
        distance as int,
        draw,
    ));
    r
}

/// A place along the corridor, with the corridor's vertical span there.
#[derive(Clone, Copy, Debug, PartialEq, Eq, Structural)]
pub struct Waypoint {
    pub x: i64,
    pub range: HeightRange,
}

impl Waypoint {
    /// The place and both ends of the range are coordinates in range.
    pub open spec fn in_range(self) -> bool {
        coord_in_range(self.x as int) && self.range.in_range()
    }

    /// The point on the corridor's top at this waypoint.
    pub open spec fn top_point(self) -> Point2 {
        Point2 { x: self.x, y: self.range.top }
    }

    /// The point on the corridor's bottom at this waypoint.
    pub open spec fn bottom_point(self) -> Point2 {
        Point2 { x: self.x, y: self.range.bottom }
    }
}

/// All that one step of the growth draws: the length sampled for the
/// section, and the three fractions of the bend.
#[derive(Clone, Copy, Debug, PartialEq, Eq, Structural)]
pub struct StepDraw {
    pub length: i64,
    pub bend: BendDraw,
}

impl StepDraw {
    /// The length lies between the bounds and the bend's fractions between
    /// zero and one.
    pub open spec fn admissible(self, length_bounds: Bounds1D<i64>) -> bool {
        length_bounds.min <= self.length <= length_bounds.max && self.bend.admissible()
    }
}

/// Every draw of the sequence is admissible.
pub open spec fn all_admissible(draws: Seq<StepDraw>, length_bounds: Bounds1D<i64>) -> bool {
    forall|i: int| 0 <= i < draws.len() ==> (#[trigger] draws[i]).admissible(length_bounds)
}

/// The vertical span of a world of the given size: from zero to its height.
pub open spec fn world_range(world_size: Size) -> HeightRange {
    HeightRange { bottom: 0, top: world_size.y }
}

/// The range in which a corridor starts: from a third of the world's height
/// up by the lower height bound.
pub open spec fn start_range(world_size: Size, height_bounds: Bounds1D<i64>) -> HeightRange {
    HeightRange {
        bottom: floor_div(world_size.y as int, 3) as i64,
        top: (floor_div(world_size.y as int, 3) + height_bounds.min) as i64,
    }
}

/// Where the straight first section ends: after `first_length`, or at the
/// end of the world if that comes first.
pub open spec fn entry_end(world_size: Size, first_length: int) -> int {
    if first_length < world_size.x {
        first_length
    } else {
        world_size.x as int
    }
}

/// The waypoints that every corridor starts with: two at zero and one at
/// the end of the first section, all three with the starting range.
pub open spec fn tunnel_entry(world_size: Size, height_bounds: Bounds1D<i64>, first_length: int)
    -> Seq<Waypoint> {
    let start = start_range(world_size, height_bounds);
    seq![
        Waypoint { x: 0, range: start },
        Waypoint { x: 0, range: start },
        Waypoint { x: entry_end(world_size, first_length) as i64, range: start },
    ]
}

/// The waypoints after one more step.  A section that would not lead on
/// adds nothing; otherwise the step adds the waypoint at the section's end,
/// or fails as its bend does.
pub open spec fn grown_once(
    waypoints: Seq<Waypoint>,
    world_size: Size,
    length_bounds: Bounds1D<i64>,
    height_bounds: Bounds1D<i64>,
    draw: StepDraw,
) -> Result<Seq<Waypoint>, StepError>
    recommends
        waypoints.len() > 0,
{
    let last = waypoints.last();
    let length = section_length(last.x as int, world_size.x as int, length_bounds, draw.length as int);
    if length <= 0 {
        Ok(waypoints)
    } else {
        match tunnel_height(world_range(world_size), last.range, height_bounds, length, draw.bend) {
            Ok(range) => Ok(waypoints.push(Waypoint { x: (last.x + length) as i64, range })),
            Err(e) => Err(e),
        }
    }
}

/// The waypoints of the corridor that the draws give, one step for each
/// draw in turn; the error of the first step that fails.  A corridor whose
/// starting range does not lie in the world is not begun.
pub open spec fn grown(
    world_size: Size,
    length_bounds: Bounds1D<i64>,
    height_bounds: Bounds1D<i64>,
    first_length: int,
    draws: Seq<StepDraw>,
) -> Result<Seq<Waypoint>, StepError>
    decreases draws.len(),
{
    if draws.len() == 0 {
        if world_range(world_size).encloses(start_range(world_size, height_bounds)) {
            Ok(tunnel_entry(world_size, height_bounds, first_length))
        } else {
            Err(StepError::OutOfWorld)
        }
    } else {
        match grown(world_size, length_bounds, height_bounds, first_length, draws.drop_last()) {
            Ok(waypoints) => grown_once(
                waypoints,
                world_size,
                length_bounds,
                height_bounds,
                draws.last(),
            ),
            Err(e) => Err(e),
        }
    }
}

/// `result` holds what `outcome` describes.
pub open spec fn is_outcome(
    result: Result<Vec<Waypoint>, StepError>,
    outcome: Result<Seq<Waypoint>, StepError>,
) -> bool {
    match result {
        Ok(waypoints) => outcome == Ok::<Seq<Waypoint>, StepError>(waypoints@),
        Err(e) => outcome == Err::<Seq<Waypoint>, StepError>(e),
    }
}

/// Every range of the waypoints lies in the world.
pub open spec fn all_in_world(waypoints: Seq<Waypoint>, world_size: Size) -> bool {
    forall|i: int|
        0 <= i < waypoints.len() ==> world_range(world_size).encloses(
            (#[trigger] waypoints[i]).range,
        )
}

/// Every range of the waypoints is no lower than the least height and no
/// higher than the greatest.
pub open spec fn all_keep_heights(waypoints: Seq<Waypoint>, height_bounds: Bounds1D<i64>) -> bool {
    forall|i: int|
        0 <= i < waypoints.len() ==> (#[trigger] waypoints[i]).range.keeps(height_bounds)
}

/// From the waypoint at `from` on, each waypoint lies further along than
/// the one before it.
pub open spec fn advancing_from(waypoints: Seq<Waypoint>, from: int) -> bool {
    forall|i: int|
        from <= i < waypoints.len() ==> waypoints[i - 1].x < (#[trigger] waypoints[i]).x
}

/// After the straight first section, each waypoint lies further along than
/// the one before it.
pub open spec fn advancing(waypoints: Seq<Waypoint>) -> bool {
    advancing_from(waypoints, 3)
}

/// From the end of the first section on, every waypoint lies between that
/// end and the end of the world.
pub open spec fn beyond_entry(waypoints: Seq<Waypoint>, world_size: Size, first_length: int)
    -> bool {
    forall|i: int|
        2 <= i < waypoints.len() ==> entry_end(world_size, first_length) <= (
        #[trigger] waypoints[i]).x <= world_size.x
}

/// `waypoints` has the shape of a corridor across the world: it starts with
/// the three waypoints of the straight first section, every range lies in
/// the world and is no lower than the least height and no higher than the
/// greatest, and after the first section each waypoint lies further along
/// than the one before it, and none beyond the end of the world.
pub open spec fn is_corridor(
    waypoints: Seq<Waypoint>,
    world_size: Size,
    height_bounds: Bounds1D<i64>,
    first_length: int,
) -> bool {
    &&& waypoints.len() >= 3
    &&& waypoints.subrange(0, 3) == tunnel_entry(world_size, height_bounds, first_length)
    &&& all_in_world(waypoints, world_size)
    &&& all_keep_heights(waypoints, height_bounds)
    &&& advancing(waypoints)
    &&& beyond_entry(waypoints, world_size, first_length)
}

/// A step of the growth keeps the shape of a corridor, whatever is drawn.
pub proof fn lemma_step_keeps_corridor(
    waypoints: Seq<Waypoint>,
    world_size: Size,
    length_bounds: Bounds1D<i64>,
    height_bounds: Bounds1D<i64>,
    first_length: int,
    draw: StepDraw,
)
    requires
        world_size.in_range(),
        coord_in_range(height_bounds.max as int),
        i64::MIN <= first_length,
        is_corridor(waypoints, world_size, height_bounds, first_length),
    ensures
        grown_once(waypoints, world_size, length_bounds, height_bounds, draw) matches Ok(next)
            ==> is_corridor(next, world_size, height_bounds, first_length),
{
    let last = waypoints.last();
    let length = section_length(
        last.x as int,
        world_size.x as int,
        length_bounds,
        draw.length as int,
    );
    if length > 0 {
        let world = world_range(world_size);
        assert(world.encloses(last.range));
        lemma_step_stays_in_world(world, last.range, height_bounds, length, draw.bend);
        assert(last.range.keeps(height_bounds));
        lemma_step_keeps_heights(world, last.range, height_bounds, length, draw.bend);
        match tunnel_height(world, last.range, height_bounds, length, draw.bend) {
            Ok(range) => {
                let added = Waypoint { x: (last.x + length) as i64, range };
                let next = waypoints.push(added);
                assert(added.x == last.x + length);
                assert(next.subrange(0, 3) =~= waypoints.subrange(0, 3));
                assert forall|i: int| 0 <= i < next.len() implies world.encloses(
                    (#[trigger] next[i]).range,
                ) by {
                    if i < waypoints.len() {
                        assert(next[i] == waypoints[i]);
                    }
                }
                assert forall|i: int| 0 <= i < next.len() implies (#[trigger] next[i]).range.keeps(
                    height_bounds,
                ) by {
                    if i < waypoints.len() {
                        assert(next[i] == waypoints[i]);
                    }
                }
                assert forall|i: int| 3 <= i < next.len() implies next[i - 1].x < (
                #[trigger] next[i]).x by {
                    if i < waypoints.len() {
                        assert(next[i] == waypoints[i]);
                        assert(next[i - 1] == waypoints[i - 1]);
                    }
                }
                assert forall|i: int| 2 <= i < next.len() implies entry_end(
                    world_size,
                    first_length,
                ) <= (#[trigger] next[i]).x <= world_size.x by {
                    if i < waypoints.len() {
                        assert(next[i] == waypoints[i]);
                    }
                }
            },
            Err(_) => {},
        }
    }
}

/// Whatever is drawn, a growth that does not fail gives a corridor: every
/// range lies in the world and keeps the height bounds, and after the
/// straight first section each waypoint lies further along than the one
/// before it.
pub proof fn lemma_grown_is_corridor(
    world_size: Size,
    length_bounds: Bounds1D<i64>,
    height_bounds: Bounds1D<i64>,
    first_length: int,
    draws: Seq<StepDraw>,
)
    requires
        world_size.in_range(),
        coord_in_range(height_bounds.min as int),
        coord_in_range(height_bounds.max as int),
        height_bounds.min <= height_bounds.max,
        i64::MIN <= first_length,
    ensures
        grown(world_size, length_bounds, height_bounds, first_length, draws) matches Ok(waypoints)
            ==> is_corridor(waypoints, world_size, height_bounds, first_length),
    decreases draws.len(),
{
    if draws.len() == 0 {
        let entry = tunnel_entry(world_size, height_bounds, first_length);
        if world_range(world_size).encloses(start_range(world_size, height_bounds)) {
            assert(entry.subrange(0, 3) =~= entry);
            crate::arith::lemma_floor_div_bounds(world_size.y as int, 3);
            assert(start_range(world_size, height_bounds).extent() == height_bounds.min);
        }
    } else {
        lemma_grown_is_corridor(
            world_size,
            length_bounds,
            height_bounds,
            first_length,
            draws.drop_last(),
        );
        match grown(world_size, length_bounds, height_bounds, first_length, draws.drop_last()) {
            Ok(before) => {
                lemma_step_keeps_corridor(
                    before,
                    world_size,
                    length_bounds,
                    height_bounds,
                    first_length,
                    draws.last(),
                );
            },
            Err(_) => {},
        }
    }
}

/// How much room the first two cells of a corridor have.
///
/// The cell between the two waypoints at zero has no width, and so no room
/// for any disc.  The cell of the straight first section is an upright
/// rectangle as long as the section and as high as the lower height bound:
/// it has room for a disc exactly if both are more than the disc is wide.
/// A disc of half the lower height bound is as wide as that cell is high,
/// where the bound is even, and has no room in it.
pub proof fn lemma_entry_clearance(
    waypoints: Seq<Waypoint>,
    world_size: Size,
    height_bounds: Bounds1D<i64>,
    first_length: int,
    radius: int,
)
    requires
        world_size.in_range(),
        coord_in_range(height_bounds.min as int),
        -COORD_MAX <= first_length,
        is_corridor(waypoints, world_size, height_bounds, first_length),
        radius >= 0,
    ensures
        !Cell::between(waypoints[0], waypoints[1]).has_room_for(radius),
        entry_end(world_size, first_length) > 0 ==> (Cell::between(
            waypoints[1],
            waypoints[2],
        ).has_room_for(radius) <==> entry_end(world_size, first_length) > 2 * radius
            && height_bounds.min > 2 * radius),
        entry_end(world_size, first_length) > 0 && height_bounds.min % 2 == 0 ==> !Cell::between(
            waypoints[1],
            waypoints[2],
        ).has_room_for(height_bounds.min / 2),
{
    let entry = tunnel_entry(world_size, height_bounds, first_length);
    assert(waypoints[0] == waypoints.subrange(0, 3)[0]);
    assert(waypoints[1] == waypoints.subrange(0, 3)[1]);
    assert(waypoints[2] == waypoints.subrange(0, 3)[2]);
    let start = start_range(world_size, height_bounds);
    assert(world_range(world_size).encloses(waypoints[0].range));
    assert(waypoints[0].range == start);
    let seed = Cell::between(waypoints[0], waypoints[1]);
    assert(seed.vy.cross(seed.vx1) == 0) by (nonlinear_arith)
        requires
            seed.vx1.x == 0,
            seed.vx1.y == 0,
            seed.vy.cross(seed.vx1) == seed.vy.x * seed.vx1.y - seed.vy.y * seed.vx1.x,
    ;
    crate::arith::lemma_floor_div_bounds(world_size.y as int, 3);
    assert(start.top - start.bottom == height_bounds.min);
    assert(waypoints[1].x == 0);
    assert(waypoints[2].x == entry_end(world_size, first_length));
    assert(waypoints[1].range == start && waypoints[2].range == start);
    if entry_end(world_size, first_length) > 0 {
        Cell::lemma_clearance_of_rectangle(waypoints[1], waypoints[2], radius);
        if height_bounds.min % 2 == 0 && height_bounds.min >= 0 {
            Cell::lemma_clearance_of_rectangle(waypoints[1], waypoints[2], height_bounds.min / 2);
        }
    }
}

/// Which cells of a corridor after its first section have room for a disc.
///
/// The cell between a waypoint and the next has room where it is longer
/// than the disc is wide and, at either end, higher than the disc is wide
/// by more than one step and twice the radius times how far, over the
/// length of the cell, its two edges lean toward each other as seen from
/// that end.  Every range of a corridor is at least as high as the lower
/// height bound; how much higher it has to be for a disc of half that
/// bound depends on how steeply the corridor bends.
pub proof fn lemma_corridor_clearance(
    waypoints: Seq<Waypoint>,
    world_size: Size,
    height_bounds: Bounds1D<i64>,
    first_length: int,
    i: int,
    radius: int,
)
    requires
        world_size.in_range(),
        -COORD_MAX <= first_length,
        is_corridor(waypoints, world_size, height_bounds, first_length),
        2 <= i,
        i + 1 < waypoints.len(),
        radius >= 0,
        waypoints[i + 1].x - waypoints[i].x > 2 * radius,
        (waypoints[i].range.extent() - 2 * radius - 1) * (waypoints[i + 1].x - waypoints[i].x) > 2
            * radius * (crate::cell::rise(
            waypoints[i + 1].range.bottom - waypoints[i].range.bottom,
        ) + crate::cell::fall(waypoints[i + 1].range.top - waypoints[i].range.top)),
        (waypoints[i + 1].range.extent() - 2 * radius - 1) * (waypoints[i + 1].x - waypoints[i].x)
            > 2 * radius * (crate::cell::fall(
            waypoints[i + 1].range.bottom - waypoints[i].range.bottom,
        ) + crate::cell::rise(waypoints[i + 1].range.top - waypoints[i].range.top)),
    ensures
        waypoints[i].range.extent() >= height_bounds.min,
        waypoints[i + 1].range.extent() >= height_bounds.min,
        Cell::between(waypoints[i], waypoints[i + 1]).has_room_for(radius),
{
    let prev = waypoints[i];
    let next = waypoints[i + 1];
    let world = world_range(world_size);
    assert(world.encloses(prev.range) && world.encloses(next.range));
    assert(prev.range.keeps(height_bounds) && next.range.keeps(height_bounds));
    assert(entry_end(world_size, first_length) <= prev.x <= world_size.x);
    assert(entry_end(world_size, first_length) <= next.x <= world_size.x);
    assert(Cell::between(prev, next).valid());
    Cell::lemma_room_between(prev, next, radius);
}

/// One more draw takes one more step.
pub proof fn lemma_grown_push(
    world_size: Size,
    length_bounds: Bounds1D<i64>,
    height_bounds: Bounds1D<i64>,
    first_length: int,
    draws: Seq<StepDraw>,
    draw: StepDraw,
)
    ensures
        grown(world_size, length_bounds, height_bounds, first_length, draws.push(draw)) == match grown(
            world_size,
            length_bounds,
            height_bounds,
            first_length,
            draws,
        ) {
            Ok(waypoints) => grown_once(waypoints, world_size, length_bounds, height_bounds, draw),
            Err(e) => Err(e),
        },
{
    assert(draws.push(draw).drop_last() =~= draws);
    assert(draws.push(draw).last() == draw);
}

/// The corridor is a function of the world, the bounds and the draws: two
/// results that are both what the same draws give are the same, waypoint
/// for waypoint or error for error.
pub proof fn lemma_same_draws_same_corridor(
    first: Result<Vec<Waypoint>, StepError>,
    second: Result<Vec<Waypoint>, StepError>,
    world_size: Size,
    length_bounds: Bounds1D<i64>,
    height_bounds: Bounds1D<i64>,
    first_length: int,
    draws: Seq<StepDraw>,
)
    requires
        is_outcome(first, grown(world_size, length_bounds, height_bounds, first_length, draws)),
        is_outcome(second, grown(world_size, length_bounds, height_bounds, first_length, draws)),
    ensures
        match (first, second) {
            (Ok(a), Ok(b)) => a@ == b@,
            (Err(e1), Err(e2)) => e1 == e2,
            _ => false,
        },
{
}

/// Takes one step of the growth for the given draw.  Tells whether a
/// waypoint was added; on an error the waypoints are as they were.
pub fn extend_tunnel(
    waypoints: &mut Vec<Waypoint>,
    world_size: &Size,
    length_bounds: &Bounds1D<i64>,
    height_bounds: &Bounds1D<i64>,
    draw: &StepDraw,
) -> (r: Result<bool, StepError>)
    requires
        old(waypoints)@.len() > 0,
        world_size.in_range(),
        old(waypoints)@.last().range.in_range(),
        i64::MIN <= world_size.x - old(waypoints)@.last().x <= COORD_MAX,
        coord_in_range(height_bounds.min as int),
        coord_in_range(height_bounds.max as int),
        height_bounds.min <= height_bounds.max,
        draw.bend.admissible(),
    ensures
        match r {
            Ok(added) => {
                &&& grown_once(
                    old(waypoints)@,
                    *world_size,
                    *length_bounds,
                    *height_bounds,
                    *draw,
                ) == Ok::<Seq<Waypoint>, StepError>(final(waypoints)@)
                &&& added == (final(waypoints)@.len() > old(waypoints)@.len())
            },
            Err(e) => {
                &&& grown_once(
                    old(waypoints)@,
                    *world_size,
                    *length_bounds,
                    *height_bounds,
                    *draw,
                ) == Err::<Seq<Waypoint>, StepError>(e)
                &&& final(waypoints)@ == old(waypoints)@
            },
        },
{
    let last: Waypoint = waypoints[waypoints.len() - 1];
    let length: i64 = clamp_section_length(last.x, world_size.x, length_bounds, draw.length);
    if length <= 0 {
        return Ok(false);
    }
    let world = HeightRange { bottom: 0, top: world_size.y };
    match shape_tunnel_height(&world, &last.range, height_bounds, length, &draw.bend) {
        Ok(range) => {
            waypoints.push(Waypoint { x: last.x + length, range });
            Ok(true)
        },
        Err(e) => Err(e),
    }
}

/// Grows a corridor across a world of the given size.
///
/// The corridor starts with a straight section of `first_length` and is
/// then led on, section by section, until it comes to the end of the world
/// or a section would not lead on.  The length of each section is sampled
/// between the length bounds.  The lower height bound is the radius of the
/// turning circle, the height of the corridor at its start and its least
/// height anywhere; the upper one is its greatest height.  The first step
/// that fails ends the growth with its error.
pub fn build_tunnel2(
    world_size: &Size,
    length_bounds: &Bounds1D<i64>,
    height_bounds: &Bounds1D<i64>,
    first_length: i64,
    rng: &mut StdRng,
) -> (r: Result<Vec<Waypoint>, StepError>)
    requires
        world_size.in_range(),
        length_bounds.min <= length_bounds.max < i64::MAX,
        coord_in_range(height_bounds.min as int),
        coord_in_range(height_bounds.max as int),
        height_bounds.min <= height_bounds.max,
        world_size.x - entry_end(*world_size, first_length as int) <= COORD_MAX,
    ensures
        exists|draws: Seq<StepDraw>|
            all_admissible(draws, *length_bounds) && is_outcome(
                r,
                #[trigger] grown(
                    *world_size,
                    *length_bounds,
                    *height_bounds,
                    first_length as int,
                    draws,
                ),
            ),
        r matches Ok(waypoints) ==> {
            &&& is_corridor(waypoints@, *world_size, *height_bounds, first_length as int)
            &&& entry_end(*world_size, first_length as int) > 0 ==> advancing_from(waypoints@, 2)
            &&& length_bounds.min > 0 ==> waypoints@.last().x == world_size.x
            &&& length_bounds.min > 0 ==> 0 <= world_size.x - waypoints@.last().x
                <= length_bounds.max
        },
{
    let world = HeightRange { bottom: 0, top: world_size.y };
    let third: i64 = div_floor(world_size.y as i128, 3) as i64;
    let start = HeightRange { bottom: third, top: third + height_bounds.min };
    let ghost mut draws: Seq<StepDraw> = Seq::empty();
    if !world.is_enclosing(&start) {
        assert(all_admissible(draws, *length_bounds) && is_outcome(
            Err(StepError::OutOfWorld),
            grown(*world_size, *length_bounds, *height_bounds, first_length as int, draws),
        ));
        return Err(StepError::OutOfWorld);
    }
    let entry: i64 = if first_length < world_size.x { first_length } else { world_size.x };
    let mut waypoints: Vec<Waypoint> = Vec::new();
    waypoints.push(Waypoint { x: 0, range: start });
    waypoints.push(Waypoint { x: 0, range: start });
    waypoints.push(Waypoint { x: entry, range: start });
    assert(waypoints@ =~= tunnel_entry(*world_size, *height_bounds, first_length as int));
    let mut pos_x: i64 = entry;
    let mut current_range: HeightRange = start;
    let mut growing: bool = true;
    while growing && pos_x < world_size.x
        invariant
            world_size.in_range(),
            length_bounds.min <= length_bounds.max < i64::MAX,
            coord_in_range(height_bounds.min as int),
            coord_in_range(height_bounds.max as int),
            height_bounds.min <= height_bounds.max,
            world == world_range(*world_size),
            world_size.x - entry <= COORD_MAX,
            entry <= pos_x <= world_size.x,
            waypoints@.len() >= 3,
            waypoints@.subrange(0, 3) == tunnel_entry(
                *world_size,
                *height_bounds,
                first_length as int,
            ),
            waypoints@.last().x == pos_x,
            waypoints@.last().range == current_range,
            all_in_world(waypoints@, *world_size),
            all_keep_heights(waypoints@, *height_bounds),
            advancing(waypoints@),
            beyond_entry(waypoints@, *world_size, first_length as int),
            all_admissible(draws, *length_bounds),
            grown(*world_size, *length_bounds, *height_bounds, first_length as int, draws) == Ok::<
                Seq<Waypoint>,
                StepError,
            >(waypoints@),
            !growing ==> length_bounds.min <= 0,
        decreases world_size.x - pos_x + (if growing { 1int } else { 0int }),
    {
        let length: i64 = get_section_length(pos_x, world_size.x, length_bounds, rng);
        let ghost sample: int = choose|sample: int|
            length_bounds.min <= sample <= length_bounds.max && length == section_length(
                pos_x as int,
                world_size.x as int,
                *length_bounds,
                sample,
            );
        if length <= 0 {
            proof {
                let draw = StepDraw {
                    length: sample as i64,
                    bend: BendDraw { center: 0, top: 0, bottom: 0 },
                };
                lemma_grown_push(
                    *world_size,
                    *length_bounds,
                    *height_bounds,
                    first_length as int,
                    draws,
                    draw,
                );
                draws = draws.push(draw);
            }
            growing = false;
        } else {
            assert(world.encloses(current_range));
            assert(current_range.keeps(*height_bounds));
            let step = get_tunnel_height2(&world, &current_range, height_bounds, length, rng);
            let ghost bend: BendDraw = choose|bend: BendDraw|
                bend.admissible() && step == tunnel_height(
                    world,
                    current_range,
                    *height_bounds,
                    length as int,
                    bend,
                );
            proof {
                let draw = StepDraw { length: sample as i64, bend };
                lemma_grown_push(
                    *world_size,
                    *length_bounds,
                    *height_bounds,
                    first_length as int,
                    draws,
                    draw,
                );
                draws = draws.push(draw);
            }
            match step {
                Err(e) => {
                    assert(all_admissible(draws, *length_bounds) && is_outcome(
                        Err(e),
                        grown(
                            *world_size,
                            *length_bounds,
                            *height_bounds,
                            first_length as int,
                            draws,
                        ),
                    ));
                    return Err(e);
                },
                Ok(range) => {
                    let ghost before = waypoints@;
                    pos_x = pos_x + length;
                    current_range = range;
                    waypoints.push(Waypoint { x: pos_x, range });
                    assert(waypoints@.subrange(0, 3) =~= before.subrange(0, 3));
                },
            }
        }
    }
    assert(all_admissible(draws, *length_bounds) && is_outcome(
        Ok(waypoints),
        grown(*world_size, *length_bounds, *height_bounds, first_length as int, draws),
    ));
    Ok(waypoints)
}

/// Grows a corridor across a world of the given size, and begins again
/// with new draws where a growth fails, until one succeeds or `attempts`
/// growths have failed.
///
/// The result is what the last growth that was made gave: the corridor of
/// the first one that succeeded, or the error of the last one where none
/// did.  Without an attempt nothing is constructed, and the error is that
/// of a construction that does not exist.
pub fn build_tunnel_retrying(
    world_size: &Size,
    length_bounds: &Bounds1D<i64>,
    height_bounds: &Bounds1D<i64>,
    first_length: i64,
    attempts: u32,
    rng: &mut StdRng,
) -> (r: Result<Vec<Waypoint>, StepError>)
    requires
        world_size.in_range(),
        length_bounds.min <= length_bounds.max < i64::MAX,
        coord_in_range(height_bounds.min as int),
        coord_in_range(height_bounds.max as int),
        height_bounds.min <= height_bounds.max,
        world_size.x - entry_end(*world_size, first_length as int) <= COORD_MAX,
    ensures
        attempts == 0 ==> r == Err::<Vec<Waypoint>, StepError>(StepError::Degenerate),
        attempts > 0 ==> exists|draws: Seq<StepDraw>|
            all_admissible(draws, *length_bounds) && is_outcome(
                r,
                #[trigger] grown(
                    *world_size,
                    *length_bounds,
                    *height_bounds,
                    first_length as int,
                    draws,
                ),
            ),
        r matches Ok(waypoints) ==> {
            &&& is_corridor(waypoints@, *world_size, *height_bounds, first_length as int)
            &&& entry_end(*world_size, first_length as int) > 0 ==> advancing_from(waypoints@, 2)
            &&& length_bounds.min > 0 ==> waypoints@.last().x == world_size.x
            &&& length_bounds.min > 0 ==> 0 <= world_size.x - waypoints@.last().x
                <= length_bounds.max
        },
{
    let mut last: StepError = StepError::Degenerate;
    let mut left: u32 = attempts;
    let ghost mut witness: Seq<StepDraw> = Seq::empty();
    while left > 0
        invariant
            world_size.in_range(),
            length_bounds.min <= length_bounds.max < i64::MAX,
            coord_in_range(height_bounds.min as int),
            coord_in_range(height_bounds.max as int),
            height_bounds.min <= height_bounds.max,
            world_size.x - entry_end(*world_size, first_length as int) <= COORD_MAX,
            left <= attempts,
            left == attempts ==> last == StepError::Degenerate,
            left < attempts ==> all_admissible(witness, *length_bounds) && grown(
                *world_size,
                *length_bounds,
                *height_bounds,
                first_length as int,
                witness,
            ) == Err::<Seq<Waypoint>, StepError>(last),
        decreases left,
    {
        let attempt = build_tunnel2(world_size, length_bounds, height_bounds, first_length, rng);
        let ghost draws: Seq<StepDraw> = choose|draws: Seq<StepDraw>|
            all_admissible(draws, *length_bounds) && is_outcome(
                attempt,
                #[trigger] grown(
                    *world_size,
                    *length_bounds,
                    *height_bounds,
                    first_length as int,
                    draws,
                ),
            );
        match attempt {
            Ok(waypoints) => {
                assert(all_admissible(draws, *length_bounds) && is_outcome(
                    Ok(waypoints),
                    grown(*world_size, *length_bounds, *height_bounds, first_length as int, draws),
                ));
                return Ok(waypoints);
            },
            Err(e) => {
                last = e;
                proof {
                    witness = draws;
                }
            },
        }
        left = left - 1;
    }
    proof {
        if attempts > 0 {
            assert(all_admissible(witness, *length_bounds) && is_outcome(
                Err(last),
                grown(*world_size, *length_bounds, *height_bounds, first_length as int, witness),
            ));
        }
    }
    Err(last)
}

/// The corridor's top as a line of points from the left end of the world to
/// its right end: the world's top left corner, if there is a waypoint; the
/// top of each waypoint; the world's top right corner.
pub open spec fn top_polyline(waypoints: Seq<Waypoint>, world_size: Size) -> Seq<Position> {
    let lead = if waypoints.len() > 0 {
        seq![Point2 { x: 0, y: world_size.y }]
    } else {
        Seq::<Position>::empty()
    };
    lead + Seq::new(waypoints.len(), |i: int| waypoints[i].top_point()) + seq![
        Point2 { x: world_size.x, y: world_size.y },
    ]
}

/// The corridor's bottom as a line of points from the left end of the world
/// to its right end: the world's bottom left corner, if there is a
/// waypoint; the bottom of each waypoint; the world's bottom right corner.
pub open spec fn bottom_polyline(waypoints: Seq<Waypoint>, world_size: Size) -> Seq<Position> {
    let lead = if waypoints.len() > 0 {
        seq![Point2 { x: 0, y: 0 }]
    } else {
        Seq::<Position>::empty()
    };
    lead + Seq::new(waypoints.len(), |i: int| waypoints[i].bottom_point()) + seq![
        Point2 { x: world_size.x, y: 0 },
    ]
}

/// The two lines of points that bound the corridor: first its top, then
/// its bottom, each closed toward the world's corners.
pub fn convert_to_polygons(waypoints: &Vec<Waypoint>, world_size: &Size) -> (r: (
    Vec<Position>,
    Vec<Position>,
))
    ensures
        r.0@ == top_polyline(waypoints@, *world_size),
        r.1@ == bottom_polyline(waypoints@, *world_size),
{
    let mut top_pts: Vec<Position> = Vec::new();
    let mut bot_pts: Vec<Position> = Vec::new();
    if waypoints.len() > 0 {
        top_pts.push(Position { x: 0, y: world_size.y });
        bot_pts.push(Position { x: 0, y: 0 });
    }
    let ghost lead_top = top_pts@;
    let ghost lead_bot = bot_pts@;
    let mut i: usize = 0;
    while i < waypoints.len()
        invariant
            i <= waypoints@.len(),
            top_pts@ == lead_top + Seq::new(i as nat, |k: int| waypoints@[k].top_point()),
            bot_pts@ == lead_bot + Seq::new(i as nat, |k: int| waypoints@[k].bottom_point()),
        decreases waypoints@.len() - i,
    {
        let w: Waypoint = waypoints[i];
        top_pts.push(Position { x: w.x, y: w.range.top });
        bot_pts.push(Position { x: w.x, y: w.range.bottom });
        i = i + 1;
        assert(top_pts@ =~= lead_top + Seq::new(i as nat, |k: int| waypoints@[k].top_point()));
        assert(bot_pts@ =~= lead_bot + Seq::new(i as nat, |k: int| waypoints@[k].bottom_point()));
    }
    top_pts.push(Position { x: world_size.x, y: world_size.y });
    bot_pts.push(Position { x: world_size.x, y: 0 });
    assert(top_pts@ =~= top_polyline(waypoints@, *world_size));
    assert(bot_pts@ =~= bottom_polyline(waypoints@, *world_size));
    (top_pts, bot_pts)
}

/// The cells of a corridor: one between each waypoint and the next.
pub open spec fn cells_between(waypoints: Seq<Waypoint>) -> Seq<Cell> {
    if waypoints.len() < 2 {
        Seq::<Cell>::empty()
    } else {
        Seq::new((waypoints.len() - 1) as nat, |i: int| Cell::between(waypoints[i], waypoints[i + 1]))
    }
}

/// The cells of a corridor: one between each waypoint and the next, so one
/// fewer than there are waypoints.
pub fn convert_to_cells(waypoints: &Vec<Waypoint>) -> (cells: Vec<Cell>)
    requires
        forall|i: int| 0 <= i < waypoints@.len() ==> (#[trigger] waypoints@[i]).in_range(),
    ensures
        cells@ == cells_between(waypoints@),
        forall|i: int| 0 <= i < cells@.len() ==> (#[trigger] cells@[i]).wf(),
{
    let mut cells: Vec<Cell> = Vec::new();
    if waypoints.len() < 2 {
        assert(cells@ =~= cells_between(waypoints@));
        return cells;
    }
    let count: usize = waypoints.len();
    let mut i: usize = 0;
    while i + 1 < count
        invariant
            count == waypoints@.len(),
            count >= 2,
            i + 1 <= count,
            forall|k: int| 0 <= k < waypoints@.len() ==> (#[trigger] waypoints@[k]).in_range(),
            cells@.len() == i,
            forall|k: int|
                0 <= k < i ==> #[trigger] cells@[k] == Cell::between(
                    waypoints@[k],
                    waypoints@[k + 1],
                ),
            forall|k: int| 0 <= k < cells@.len() ==> (#[trigger] cells@[k]).wf(),
        decreases count - i,
    {
        let c = Cell::new_from_waypoints(&waypoints[i], &waypoints[i + 1]);
        cells.push(c);
        i = i + 1;
    }
    assert(cells@ =~= cells_between(waypoints@));
    cells
}

} // verus!
