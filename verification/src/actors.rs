//! The things that take part in a scene: what each is, where it stands,
//! whether it is drawn and ticks, and what it collides as.

use vstd::prelude::*;
use crate::effect::Effect;
use crate::unit::{Position, Size};

verus! {

/// The name of an actor, a scene or a drawable thing.
pub type Id = u128;

/// The name that names nothing.
pub open spec fn nil_id() -> Id {
    0
}

/// The name that names nothing.
pub fn no_id() -> (id: Id)
    ensures
        id == nil_id(),
{
    0
}

/// The frame in which an actor's position is counted.
#[derive(Clone, Copy, Debug, PartialEq, Eq, Structural)]
pub enum DrawContext {
    WorldSpace,
    ScreenSpace,
}

/// What an actor is in the scene.
#[derive(Clone, Copy, Debug, PartialEq, Eq, Structural)]
pub enum ActorType {
    Background,
    Foreground,
    Player,
    Terrain,
    UI,
    Camera,
}

/// The shape that an actor collides as.
#[derive(Clone, Debug, PartialEq, Eq)]
pub enum Collision {
    NoCollision,
    RectCollision { width: i64, height: i64 },
    DiscCollision { radius: i64 },
    PolyCollision { points: Vec<Position> },
}

impl Collision {
    /// The width and the height of the shape: those of a rectangle, the
    /// radius twice for a disc, and nothing for the other shapes.
    pub open spec fn size(self) -> Size {
        match self {
            Collision::RectCollision { width, height } => Size { x: width, y: height },
            Collision::DiscCollision { radius } => Size { x: radius, y: radius },
            _ => Size { x: 0, y: 0 },
        }
    }

    /// The width and the height of the shape.
    pub fn get_size(&self) -> (size: Size)
        ensures
            size == self.size(),
    {
        match self {
            Collision::RectCollision { width, height } => Size { x: *width, y: *height },
            Collision::DiscCollision { radius } => Size { x: *radius, y: *radius },
            _ => Size { x: 0, y: 0 },
        }
    }
}

/// The shape of what collides with nothing.
pub fn mk_nocol() -> (c: Collision)
    ensures
        c == Collision::NoCollision,
{
    Collision::NoCollision
}

/// The shape of a line through the given points.
pub fn mk_polycol(pts: &Vec<Position>) -> (c: Collision)
    ensures
        c matches Collision::PolyCollision { points } && points@ == pts@,
{
    let mut points: Vec<Position> = Vec::new();
    let mut i: usize = 0;
    while i < pts.len()
        invariant
            i <= pts@.len(),
            points@ == pts@.subrange(0, i as int),
        decreases pts@.len() - i,
    {
        points.push(pts[i]);
        i = i + 1;
        assert(points@ =~= pts@.subrange(0, i as int));
    }
    assert(points@ =~= pts@);
    Collision::PolyCollision { points }
}

/// The corners of the rectangle of the given width and height that stands
/// on the origin, from the origin round by the side of the height.
pub fn rect_col_polygon(width: i64, height: i64) -> (points: Vec<Position>)
    ensures
        points@ == seq![
            Position { x: 0, y: 0 },
            Position { x: 0, y: height },
            Position { x: width, y: height },
            Position { x: width, y: 0 },
        ],
{
    let mut points: Vec<Position> = Vec::new();
    points.push(Position { x: 0, y: 0 });
    points.push(Position { x: 0, y: height });
    points.push(Position { x: width, y: height });
    points.push(Position { x: width, y: 0 });
    assert(points@ =~= seq![
        Position { x: 0, y: 0 },
        Position { x: 0, y: height },
        Position { x: width, y: height },
        Position { x: width, y: 0 },
    ]);
    points
}

/// Two rectangles whose middles lie at the given positions overlap, or
/// touch: the middles are no further apart on either axis than half the
/// sum of the rectangles' extents on it.
pub open spec fn rects_overlap(pos1: Position, size1: Size, pos2: Position, size2: Size) -> bool {
    &&& 2 * (pos2.x - pos1.x) <= size1.x + size2.x
    &&& 2 * (pos1.x - pos2.x) <= size1.x + size2.x
    &&& 2 * (pos2.y - pos1.y) <= size1.y + size2.y
    &&& 2 * (pos1.y - pos2.y) <= size1.y + size2.y
}

/// Two shapes at two positions collide: the shapes are found in contact, or
/// both are rectangles that overlap.
pub open spec fn colliding(
    pos1: Position,
    col1: Collision,
    pos2: Position,
    col2: Collision,
    contact: bool,
) -> bool {
    contact || (col1 is RectCollision && col2 is RectCollision && rects_overlap(
        pos1,
        col1.size(),
        pos2,
        col2.size(),
    ))
}

/// Tells whether two shapes at two positions collide, given whether the
/// shapes were found in contact.
pub fn collides(
    pos1: &Position,
    col1: &Collision,
    pos2: &Position,
    col2: &Collision,
    contact: bool,
) -> (b: bool)
    ensures
        b == colliding(*pos1, *col1, *pos2, *col2, contact),
{
    if contact {
        return true;
    }
    match (col1, col2) {
        (
            Collision::RectCollision { width: width1, height: height1 },
            Collision::RectCollision { width: width2, height: height2 },
        ) => {
            let dx: i128 = pos2.x as i128 - pos1.x as i128;
            let dy: i128 = pos2.y as i128 - pos1.y as i128;
            let reach_x: i128 = *width1 as i128 + *width2 as i128;
            let reach_y: i128 = *height1 as i128 + *height2 as i128;
            if 2 * dx > reach_x || 2 * (-dx) > reach_x {
                return false;
            }
            if 2 * dy > reach_y || 2 * (-dy) > reach_y {
                return false;
            }
            true
        },
        _ => false,
    }
}

/// One of the things that take part in a scene.
pub struct Actor {
    pub atype: ActorType,
    pub id: Id,
    /// Where the actor stands.
    pub transform: Position,
    /// The name of what is drawn for the actor.
    pub drawable: Id,
    pub drawctx: DrawContext,
    pub visible: bool,
    pub collision: Collision,
    /// What happens where the player runs into the actor.
    pub on_collision: Vec<Effect>,
    /// What happens when the scene starts.
    pub on_start: Vec<Effect>,
    /// What happens at every tick.
    pub on_tick: Vec<Effect>,
    pub ticking: bool,
}

impl ActorType {
    /// A new actor of this type with the given name.
    pub fn make(self, id: Id) -> (a: Actor)
        ensures
            a.is_fresh(self, id),
    {
        Actor::new(self, id)
    }
}

impl Actor {
    /// The actor is as it is made: at the origin, with nothing to draw,
    /// not seen, not ticking, colliding with nothing and without effects.
    pub open spec fn is_fresh(self, atype: ActorType, id: Id) -> bool {
        &&& self.atype == atype
        &&& self.id == id
        &&& self.transform == (Position { x: 0, y: 0 })
        &&& self.drawable == nil_id()
        &&& self.drawctx == DrawContext::WorldSpace
        &&& !self.visible
        &&& self.collision == Collision::NoCollision
        &&& self.on_collision@.len() == 0
        &&& self.on_start@.len() == 0
        &&& self.on_tick@.len() == 0
        &&& !self.ticking
    }

    /// The actor takes part in collisions: it ticks, it is not the player,
    /// and it collides as something.
    pub open spec fn collidable(self) -> bool {
        self.ticking && self.atype != ActorType::Player && !(self.collision is NoCollision)
    }

    /// A new actor of the given type with the given name.
    pub fn new(atype: ActorType, id: Id) -> (a: Actor)
        ensures
            a.is_fresh(atype, id),
    {
        Actor {
            atype: atype,
            id: id,
            transform: Position { x: 0, y: 0 },
            drawable: no_id(),
            drawctx: DrawContext::WorldSpace,
            visible: false,
            collision: mk_nocol(),
            on_collision: Vec::new(),
            on_start: Vec::new(),
            on_tick: Vec::new(),
            ticking: false,
        }
    }

    /// Names what is drawn for the actor.
    pub fn add_drawable(&mut self, drawable: Id)
        ensures
            final(self).drawable == drawable,
            final(self).atype == old(self).atype,
            final(self).id == old(self).id,
            final(self).transform == old(self).transform,
            final(self).drawctx == old(self).drawctx,
            final(self).visible == old(self).visible,
            final(self).collision == old(self).collision,
            final(self).on_collision == old(self).on_collision,
            final(self).on_start == old(self).on_start,
            final(self).on_tick == old(self).on_tick,
            final(self).ticking == old(self).ticking,
    {
        self.drawable = drawable
    }

    /// The name of what is drawn for the actor.
    pub fn get_drawable(&self) -> (id: Id)
        ensures
            id == self.drawable,
    {
        self.drawable
    }

    /// Brings the actor into the scene: it is seen, and it ticks if it is
    /// the player or a thing of the foreground or of the background.
    pub fn start(&mut self)
        ensures
            final(self).visible,
            final(self).ticking == (old(self).atype == ActorType::Player || old(self).atype
                == ActorType::Foreground || old(self).atype == ActorType::Background),
            final(self).atype == old(self).atype,
            final(self).id == old(self).id,
            final(self).transform == old(self).transform,
            final(self).drawable == old(self).drawable,
            final(self).drawctx == old(self).drawctx,
            final(self).collision == old(self).collision,
            final(self).on_collision == old(self).on_collision,
            final(self).on_start == old(self).on_start,
            final(self).on_tick == old(self).on_tick,
    {
        match self.atype {
            ActorType::Player => {
                self.visible = true;
                self.ticking = true;
            },
            ActorType::Foreground => {
                self.visible = true;
                self.ticking = true;
            },
            ActorType::Background => {
                self.visible = true;
                self.ticking = true;
            },
            _ => {
                self.visible = true;
                self.ticking = false;
            },
        }
    }

    /// Stops the actor's ticking.
    pub fn stop(&mut self)
        ensures
            !final(self).ticking,
            final(self).visible == old(self).visible,
            final(self).atype == old(self).atype,
            final(self).id == old(self).id,
            final(self).transform == old(self).transform,
            final(self).drawable == old(self).drawable,
            final(self).drawctx == old(self).drawctx,
            final(self).collision == old(self).collision,
            final(self).on_collision == old(self).on_collision,
            final(self).on_start == old(self).on_start,
            final(self).on_tick == old(self).on_tick,
    {
        self.ticking = false;
    }

    /// Tells whether the actor takes part in collisions.
    pub fn has_collision(&self) -> (b: bool)
        ensures
            b == self.collidable(),
    {
        if !self.ticking {
            false
        } else if let ActorType::Player = self.atype {
            false
        } else if let Collision::NoCollision = self.collision {
            false
        } else {
            true
        }
    }
}

} // verus!
