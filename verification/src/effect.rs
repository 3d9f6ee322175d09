//! What happens to an actor: the effects that a scene puts on it, and what
//! each of them does at a tick.

use vstd::prelude::*;
use crate::actors::{Actor, Collision, Id};
use crate::arith::{div_floor, floor_div, lemma_floor_div_shrinks, lemma_product_bound};
use crate::unit::{Position, Size, COORD_MAX, UNIT};

verus! {

/// How far the player moves in a second with an axis fully pressed, in
/// halves of a grid step.
pub const MOVE_STEP_HALVES: i64 = 361;

/// The longest tick that is taken in, in milliseconds.
pub const TICK_MAX: i64 = 0x1000_0000;

/// What happens to an actor.
#[derive(Clone, Copy, Debug, PartialEq, Eq, Structural)]
pub enum Effect {
    PlaceActor { actor_id: Id, position: Position },
    MoveActor { actor_id: Id, vector: Position },
    UpdateScore { actor_id: Id },
    SetScore { new_value: i32 },
    ProcessInput,
    KillActor { actor_id: Id },
    ResetActor { actor_id: Id },
    /// The next scene follows once the milliseconds have run out.
    AutoNextScene { duration: i64, cur_scene_idx: Id, next_scene_idx: Id },
    PlaySound(usize),
}

/// What an effect changes in the world beyond its actor.
#[derive(Clone, Copy, Debug, PartialEq, Eq, Structural)]
pub struct WorldChange {
    /// What is added to the score.
    pub score: u32,
    /// The scene that follows, if one does.
    pub level: Option<Id>,
    /// The effect has done its work and is taken off.
    pub dead_effect: bool,
}

impl WorldChange {
    /// No change.
    pub fn default() -> (wc: WorldChange)
        ensures
            wc == (WorldChange { score: 0, level: None, dead_effect: false }),
    {
        WorldChange { score: 0, level: None, dead_effect: false }
    }
}

/// What the effects of a tick came to.
pub struct EffectResult {
    pub scene_changed: bool,
    pub dead_effects: Vec<usize>,
}

impl EffectResult {
    /// Nothing happened.
    pub fn default() -> (r: EffectResult)
        ensures
            !r.scene_changed,
            r.dead_effects@.len() == 0,
    {
        EffectResult { scene_changed: false, dead_effects: Vec::new() }
    }
}

/// What is left for the renderer and the mixer to do after an effect.
#[derive(Clone, Copy, Debug, PartialEq, Eq, Structural)]
pub enum Outward {
    Nothing,
    /// What is drawn for the actor turns green.
    TurnGreen,
    /// The actor's text shows the score.
    ShowScore(i32),
    /// The sound of the given number is played.
    PlaySound(usize),
}

/// How the two axes of the controls are pressed, each from minus one to
/// one in parts of `UNIT`, and whether fire is.
#[derive(Clone, Copy, Debug, PartialEq, Eq, Structural)]
pub struct InputState {
    pub xaxis: i64,
    pub yaxis: i64,
    pub fire: bool,
}

impl InputState {
    /// Both axes lie between minus one and one.
    pub open spec fn wf(self) -> bool {
        -UNIT <= self.xaxis <= UNIT && -UNIT <= self.yaxis <= UNIT
    }

    /// Nothing is pressed.
    pub fn default() -> (input: InputState)
        ensures
            input == (InputState { xaxis: 0, yaxis: 0, fire: false }),
    {
        InputState { xaxis: 0, yaxis: 0, fire: false }
    }
}

/// The state of a game.
#[derive(Clone, Copy, Debug, PartialEq, Eq, Structural)]
pub struct GameState {
    pub score: i32,
    pub input: InputState,
    pub level: i32,
    pub screen: Size,
}

/// What is kept of a player between games.
pub struct PlayerState {
    pub alive: bool,
    pub score: u32,
    pub name: String,
}

/// The part of the world in which the player may move.
#[derive(Clone, Copy, Debug, PartialEq, Eq, Structural)]
pub struct WorldBounds {
    pub min: Size,
    pub max: Size,
}

impl WorldBounds {
    /// Both corners are in range.
    pub open spec fn in_range(self) -> bool {
        self.min.in_range() && self.max.in_range()
    }
}

/// How far an axis pressed to `axis` moves the player in `dt` milliseconds:
/// along the first axis in the direction pressed, along the second one
/// against it.
pub open spec fn axis_move(axis: int, dt: int, against: bool) -> int {
    let pressed = if against { -axis } else { axis };
    floor_div(pressed * MOVE_STEP_HALVES * dt, 2 * 1000 * UNIT)
}

/// `v` kept from above `high` and then from below `low`.
pub open spec fn kept_between(v: int, low: int, high: int) -> int {
    let capped = if v < high { v } else { high };
    if capped > low {
        capped
    } else {
        low
    }
}

/// Where the player stands after `dt` milliseconds of the given input: it
/// has moved as the axes are pressed and is kept within the bounds, less
/// its own size at the far sides.
pub open spec fn player_moved(
    at: Position,
    size: Size,
    input: InputState,
    worldbounds: WorldBounds,
    dt: int,
) -> Position {
    Position {
        x: kept_between(
            at.x + axis_move(input.xaxis as int, dt, false),
            worldbounds.min.x as int,
            worldbounds.max.x - size.y,
        ) as i64,
        y: kept_between(
            at.y + axis_move(input.yaxis as int, dt, true),
            worldbounds.min.y as int,
            worldbounds.max.y - size.x,
        ) as i64,
    }
}

/// How far one axis moves the player.
fn move_along(axis: i64, dt: i64, against: bool) -> (step: i64)
    requires
        -UNIT <= axis <= UNIT,
        0 <= dt <= TICK_MAX,
    ensures
        step == axis_move(axis as int, dt as int, against),
        -COORD_MAX <= step <= COORD_MAX,
{
    let pressed: i128 = if against { -(axis as i128) } else { axis as i128 };
    proof {
        lemma_product_bound(pressed as int, MOVE_STEP_HALVES as int, UNIT as int, 361);
        lemma_product_bound(pressed * MOVE_STEP_HALVES, dt as int, UNIT * 361, TICK_MAX as int);
        lemma_floor_div_shrinks(
            pressed * MOVE_STEP_HALVES * dt,
            2 * 1000 * UNIT,
            UNIT * 361 * TICK_MAX,
        );
        crate::arith::lemma_floor_div_between(
            pressed * MOVE_STEP_HALVES * dt,
            2 * 1000 * UNIT,
            -COORD_MAX,
            COORD_MAX as int,
        );
    }
    div_floor(pressed * MOVE_STEP_HALVES as i128 * dt as i128, 2 * 1000 * UNIT as i128) as i64
}

/// Keeps a coordinate from above `high` and then from below `low`.
fn keep_between(v: i128, low: i128, high: i128) -> (r: i128)
    ensures
        r == kept_between(v as int, low as int, high as int),
{
    let capped: i128 = if v < high { v } else { high };
    if capped > low {
        capped
    } else {
        low
    }
}

/// Moves the player as the axes are pressed, for a tick of `dt`
/// milliseconds, and keeps it within the bounds.
pub fn player_handle_input(
    input: &InputState,
    pa: &mut Actor,
    worldbounds: &WorldBounds,
    dt: i64,
)
    requires
        input.wf(),
        0 <= dt <= TICK_MAX,
        old(pa).transform.in_range(),
        old(pa).collision.size().in_range(),
        worldbounds.in_range(),
    ensures
        final(pa).transform == player_moved(
            old(pa).transform,
            old(pa).collision.size(),
            *input,
            *worldbounds,
            dt as int,
        ),
        final(pa).atype == old(pa).atype,
        final(pa).id == old(pa).id,
        final(pa).drawable == old(pa).drawable,
        final(pa).drawctx == old(pa).drawctx,
        final(pa).visible == old(pa).visible,
        final(pa).collision == old(pa).collision,
        final(pa).on_collision == old(pa).on_collision,
        final(pa).on_start == old(pa).on_start,
        final(pa).on_tick == old(pa).on_tick,
        final(pa).ticking == old(pa).ticking,
{
    let movex: i64 = move_along(input.xaxis, dt, false);
    let movey: i64 = move_along(input.yaxis, dt, true);
    let actor_size: Size = pa.collision.get_size();
    let x: i128 = keep_between(
        pa.transform.x as i128 + movex as i128,
        worldbounds.min.x as i128,
        worldbounds.max.x as i128 - actor_size.y as i128,
    );
    let y: i128 = keep_between(
        pa.transform.y as i128 + movey as i128,
        worldbounds.min.y as i128,
        worldbounds.max.y as i128 - actor_size.x as i128,
    );
    pa.transform = Position { x: x as i64, y: y as i64 };
}

/// What one tick of an effect comes to.
pub struct Ticked {
    /// The effect after the tick.
    pub effect: Effect,
    /// The actor after the tick.
    pub actor: Actor,
    /// What changes in the world beyond the actor, if anything does.
    pub change: Option<WorldChange>,
    /// What is left for the renderer and the mixer to do.
    pub outward: Outward,
}

impl Effect {
    /// The tick can be taken: the time that is left, the place of the
    /// actor and the input are such that the effect's arithmetic stays in
    /// range.
    pub open spec fn admits(
        self,
        actor: Actor,
        dt: int,
        state: GameState,
        worldbounds: WorldBounds,
    ) -> bool {
        match self {
            Effect::AutoNextScene { duration, .. } => i64::MIN <= duration - dt <= i64::MAX,
            Effect::ProcessInput => {
                &&& state.input.wf()
                &&& 0 <= dt <= TICK_MAX
                &&& actor.transform.in_range()
                &&& actor.collision.size().in_range()
                &&& worldbounds.in_range()
            },
            Effect::MoveActor { vector, .. } => {
                &&& i64::MIN <= actor.transform.x + vector.x <= i64::MAX
                &&& i64::MIN <= actor.transform.y + vector.y <= i64::MAX
            },
            _ => true,
        }
    }

    /// What a tick of `dt` milliseconds of the effect on the actor comes
    /// to.
    ///
    /// A scene that is to follow does so once its time has run out.  An
    /// actor that is killed stops ticking and colliding, turns green and
    /// scores a point.  The input moves the player; a move moves the
    /// actor by its vector and a placement puts it onto its position.  The
    /// score is shown, and a sound is played once.
    pub open spec fn ticked(
        self,
        actor: Actor,
        dt: int,
        state: GameState,
        worldbounds: WorldBounds,
    ) -> Ticked {
        match self {
            Effect::AutoNextScene { duration, cur_scene_idx, next_scene_idx } => Ticked {
                effect: Effect::AutoNextScene {
                    duration: (duration - dt) as i64,
                    cur_scene_idx,
                    next_scene_idx,
                },
                actor,
                change: if duration - dt < 0 {
                    Some(WorldChange { score: 0, level: Some(next_scene_idx), dead_effect: false })
                } else {
                    None
                },
                outward: Outward::Nothing,
            },
            Effect::KillActor { .. } => Ticked {
                effect: self,
                actor: Actor { ticking: false, collision: Collision::NoCollision, ..actor },
                change: Some(WorldChange { score: 1, level: None, dead_effect: true }),
                outward: Outward::TurnGreen,
            },
            Effect::ProcessInput => Ticked {
                effect: self,
                actor: Actor {
                    transform: player_moved(
                        actor.transform,
                        actor.collision.size(),
                        state.input,
                        worldbounds,
                        dt,
                    ),
                    ..actor
                },
                change: None,
                outward: Outward::Nothing,
            },
            Effect::MoveActor { vector, .. } => Ticked {
                effect: self,
                actor: Actor {
                    transform: Position {
                        x: (actor.transform.x + vector.x) as i64,
                        y: (actor.transform.y + vector.y) as i64,
                    },
                    ..actor
                },
                change: None,
                outward: Outward::Nothing,
            },
            Effect::PlaceActor { position, .. } => Ticked {
                effect: self,
                actor: Actor { transform: position, ..actor },
                change: None,
                outward: Outward::Nothing,
            },
            Effect::UpdateScore { .. } => Ticked {
                effect: self,
                actor,
                change: None,
                outward: Outward::ShowScore(state.score),
            },
            Effect::PlaySound(sound_index) => Ticked {
                effect: self,
                actor,
                change: Some(WorldChange { score: 0, level: None, dead_effect: true }),
                outward: Outward::PlaySound(sound_index),
            },
            _ => Ticked { effect: self, actor, change: None, outward: Outward::Nothing },
        }
    }

    /// Every effect can be put on every actor.
    pub fn apply(&self) -> (b: bool)
        ensures
            b,
    {
        true
    }

    /// Takes a tick of `dt` milliseconds of the effect on the actor.  Gives
    /// what changes in the world beyond the actor, and what is left for
    /// the renderer and the mixer to do.
    pub fn on_actor(
        &mut self,
        actor: &mut Actor,
        dt: i64,
        state: &GameState,
        worldbounds: &WorldBounds,
    ) -> (r: (Option<WorldChange>, Outward))
        requires
            old(self).admits(*old(actor), dt as int, *state, *worldbounds),
        ensures
            *final(self) == old(self).ticked(*old(actor), dt as int, *state, *worldbounds).effect,
            *final(actor) == old(self).ticked(*old(actor), dt as int, *state, *worldbounds).actor,
            r.0 == old(self).ticked(*old(actor), dt as int, *state, *worldbounds).change,
            r.1 == old(self).ticked(*old(actor), dt as int, *state, *worldbounds).outward,
    {
        match *self {
            Effect::AutoNextScene { duration, cur_scene_idx, next_scene_idx } => {
                let left: i64 = duration - dt;
                *self = Effect::AutoNextScene { duration: left, cur_scene_idx, next_scene_idx };
                if left < 0 {
                    (
                        Some(
                            WorldChange {
                                score: 0,
                                level: Some(next_scene_idx),
                                dead_effect: false,
                            },
                        ),
                        Outward::Nothing,
                    )
                } else {
                    (None, Outward::Nothing)
                }
            },
            Effect::KillActor { .. } => {
                actor.ticking = false;
                actor.collision = Collision::NoCollision;
                (
                    Some(WorldChange { score: 1, level: None, dead_effect: true }),
                    Outward::TurnGreen,
                )
            },
            Effect::ProcessInput => {
                player_handle_input(&state.input, actor, worldbounds, dt);
                (None, Outward::Nothing)
            },
            Effect::MoveActor { vector, .. } => {
                actor.transform = Position {
                    x: actor.transform.x + vector.x,
                    y: actor.transform.y + vector.y,
                };
                (None, Outward::Nothing)
            },
            Effect::PlaceActor { position, .. } => {
                actor.transform = position;
                (None, Outward::Nothing)
            },
            Effect::UpdateScore { .. } => (None, Outward::ShowScore(state.score)),
            Effect::PlaySound(sound_index) => (
                Some(WorldChange { score: 0, level: None, dead_effect: true }),
                Outward::PlaySound(sound_index),
            ),
            _ => (None, Outward::Nothing),
        }
    }
}

} // verus!
