use dead_pulsar::actors::{
    collides, mk_nocol, mk_polycol, no_id, rect_col_polygon, Actor, ActorType, Collision,
    DrawContext,
};
use dead_pulsar::effect::{
    player_handle_input, Effect, EffectResult, GameState, InputState, Outward, PlayerState,
    WorldBounds, WorldChange,
};
use dead_pulsar::unit::{Point2, Size, UNIT};

fn pt(x: i64, y: i64) -> Point2 {
    Point2 { x, y }
}

fn state(score: i32, xaxis: i64, yaxis: i64) -> GameState {
    GameState { score, input: InputState { xaxis, yaxis, fire: false }, level: 0, screen: Size { x: 800, y: 600 } }
}

fn bounds() -> WorldBounds {
    WorldBounds { min: pt(0, 0), max: pt(1_000_000, 200_000) }
}

#[test]
fn a_new_actor_is_out_of_the_scene() {
    let a = Actor::new(ActorType::Foreground, 17);
    assert_eq!(a.atype, ActorType::Foreground);
    assert_eq!(a.id, 17);
    assert_eq!(a.transform, pt(0, 0));
    assert_eq!(a.get_drawable(), no_id());
    assert_eq!(a.drawctx, DrawContext::WorldSpace);
    assert!(!a.visible && !a.ticking);
    assert_eq!(a.collision, Collision::NoCollision);
    assert!(a.on_collision.is_empty() && a.on_start.is_empty() && a.on_tick.is_empty());
    let b = ActorType::Camera.make(3);
    assert_eq!((b.atype, b.id), (ActorType::Camera, 3));
    assert_eq!(no_id(), 0);
}

#[test]
fn starting_and_stopping() {
    for (atype, ticks) in [
        (ActorType::Player, true),
        (ActorType::Foreground, true),
        (ActorType::Background, true),
        (ActorType::Terrain, false),
        (ActorType::UI, false),
        (ActorType::Camera, false),
    ] {
        let mut a = Actor::new(atype, 1);
        a.ticking = !ticks;
        a.start();
        assert!(a.visible);
        assert_eq!(a.ticking, ticks);
        a.stop();
        assert!(a.visible && !a.ticking);
    }
}

#[test]
fn a_drawable_is_kept() {
    let mut a = Actor::new(ActorType::UI, 1);
    a.add_drawable(99);
    assert_eq!(a.get_drawable(), 99);
    assert_eq!(a.atype, ActorType::UI);
}

#[test]
fn who_takes_part_in_collisions() {
    let rect = Collision::RectCollision { width: 10, height: 5 };
    let mut a = Actor::new(ActorType::Foreground, 1);
    assert!(!a.has_collision());
    a.collision = rect.clone();
    assert!(!a.has_collision());
    a.start();
    assert!(a.has_collision());
    a.collision = mk_nocol();
    assert!(!a.has_collision());
    let mut p = Actor::new(ActorType::Player, 2);
    p.collision = rect;
    p.start();
    assert!(!p.has_collision());
}

#[test]
fn sizes_of_shapes() {
    assert_eq!(Collision::RectCollision { width: 10, height: 5 }.get_size(), pt(10, 5));
    assert_eq!(Collision::DiscCollision { radius: 7 }.get_size(), pt(7, 7));
    assert_eq!(Collision::NoCollision.get_size(), pt(0, 0));
    assert_eq!(mk_polycol(&vec![pt(1, 2), pt(3, 4)]).get_size(), pt(0, 0));
    assert_eq!(
        mk_polycol(&vec![pt(1, 2), pt(3, 4)]),
        Collision::PolyCollision { points: vec![pt(1, 2), pt(3, 4)] }
    );
    assert_eq!(rect_col_polygon(10, 5), vec![pt(0, 0), pt(0, 5), pt(10, 5), pt(10, 0)]);
}

#[test]
fn rectangles_collide_where_they_overlap() {
    let a = Collision::RectCollision { width: 10, height: 4 };
    let b = Collision::RectCollision { width: 6, height: 2 };
    assert!(collides(&pt(0, 0), &a, &pt(8, 3), &b, false));
    assert!(collides(&pt(0, 0), &a, &pt(-8, -3), &b, false));
    assert!(!collides(&pt(0, 0), &a, &pt(9, 0), &b, false));
    assert!(!collides(&pt(0, 0), &a, &pt(0, 4), &b, false));
    assert!(!collides(&pt(0, 0), &a, &pt(0, -4), &b, false));
    assert!(collides(&pt(0, 0), &a, &pt(900, 0), &b, true));
    let disc = Collision::DiscCollision { radius: 100 };
    assert!(!collides(&pt(0, 0), &a, &pt(1, 1), &disc, false));
    assert!(collides(&pt(0, 0), &disc, &pt(1, 1), &disc, true));
}

#[test]
fn the_player_moves_as_the_axes_are_pressed() {
    let mut p = Actor::new(ActorType::Player, 1);
    p.transform = pt(500, 500);
    player_handle_input(&InputState { xaxis: UNIT, yaxis: UNIT, fire: false }, &mut p, &bounds(), 1000);
    assert_eq!(p.transform, pt(680, 319));
    player_handle_input(&InputState { xaxis: -UNIT / 2, yaxis: 0, fire: false }, &mut p, &bounds(), 100);
    assert_eq!(p.transform, pt(670, 319));
    player_handle_input(&InputState::default(), &mut p, &bounds(), 100);
    assert_eq!(p.transform, pt(670, 319));
}

#[test]
fn the_player_is_kept_in_the_world() {
    let mut p = Actor::new(ActorType::Player, 1);
    p.collision = Collision::RectCollision { width: 30, height: 20 };
    p.transform = pt(10, 10);
    player_handle_input(&InputState { xaxis: -UNIT, yaxis: UNIT, fire: false }, &mut p, &bounds(), 1000);
    assert_eq!(p.transform, pt(0, 0));
    p.transform = pt(999_990, 199_990);
    player_handle_input(&InputState { xaxis: UNIT, yaxis: -UNIT, fire: false }, &mut p, &bounds(), 1000);
    assert_eq!(p.transform, pt(999_980, 199_970));
}

#[test]
fn the_next_scene_follows_when_the_time_has_run_out() {
    let mut a = Actor::new(ActorType::UI, 1);
    let mut e = Effect::AutoNextScene { duration: 25, cur_scene_idx: 7, next_scene_idx: 8 };
    assert_eq!(e.on_actor(&mut a, 10, &state(0, 0, 0), &bounds()), (None, Outward::Nothing));
    assert_eq!(e, Effect::AutoNextScene { duration: 15, cur_scene_idx: 7, next_scene_idx: 8 });
    assert_eq!(e.on_actor(&mut a, 15, &state(0, 0, 0), &bounds()), (None, Outward::Nothing));
    assert_eq!(
        e.on_actor(&mut a, 1, &state(0, 0, 0), &bounds()),
        (Some(WorldChange { score: 0, level: Some(8), dead_effect: false }), Outward::Nothing)
    );
    assert_eq!(e, Effect::AutoNextScene { duration: -1, cur_scene_idx: 7, next_scene_idx: 8 });
}

#[test]
fn a_killed_actor_scores_and_leaves() {
    let mut a = Actor::new(ActorType::Foreground, 1);
    a.collision = Collision::DiscCollision { radius: 5 };
    a.start();
    let mut e = Effect::KillActor { actor_id: 1 };
    assert_eq!(
        e.on_actor(&mut a, 16, &state(0, 0, 0), &bounds()),
        (Some(WorldChange { score: 1, level: None, dead_effect: true }), Outward::TurnGreen)
    );
    assert!(!a.ticking && a.visible);
    assert_eq!(a.collision, Collision::NoCollision);
    assert!(!a.has_collision());
    assert_eq!(e, Effect::KillActor { actor_id: 1 });
}

#[test]
fn moving_and_placing() {
    let mut a = Actor::new(ActorType::Camera, 1);
    let mut place = Effect::PlaceActor { actor_id: 1, position: pt(40, 50) };
    assert_eq!(place.on_actor(&mut a, 16, &state(0, 0, 0), &bounds()), (None, Outward::Nothing));
    assert_eq!(a.transform, pt(40, 50));
    let mut step = Effect::MoveActor { actor_id: 1, vector: pt(2, -1) };
    assert_eq!(step.on_actor(&mut a, 16, &state(0, 0, 0), &bounds()), (None, Outward::Nothing));
    assert_eq!(step.on_actor(&mut a, 16, &state(0, 0, 0), &bounds()), (None, Outward::Nothing));
    assert_eq!(a.transform, pt(44, 48));
    let mut input = Effect::ProcessInput;
    assert_eq!(input.on_actor(&mut a, 1000, &state(0, UNIT, 0), &bounds()), (None, Outward::Nothing));
    assert_eq!(a.transform, pt(224, 48));
}

#[test]
fn score_and_sound_are_left_to_the_outside() {
    let mut a = Actor::new(ActorType::UI, 1);
    let mut show = Effect::UpdateScore { actor_id: 1 };
    assert_eq!(show.on_actor(&mut a, 16, &state(12, 0, 0), &bounds()), (None, Outward::ShowScore(12)));
    let mut sound = Effect::PlaySound(3);
    assert_eq!(
        sound.on_actor(&mut a, 16, &state(12, 0, 0), &bounds()),
        (Some(WorldChange { score: 0, level: None, dead_effect: true }), Outward::PlaySound(3))
    );
    let mut other = Effect::SetScore { new_value: 5 };
    assert_eq!(other.on_actor(&mut a, 16, &state(12, 0, 0), &bounds()), (None, Outward::Nothing));
    let mut reset = Effect::ResetActor { actor_id: 1 };
    assert_eq!(reset.on_actor(&mut a, 16, &state(12, 0, 0), &bounds()), (None, Outward::Nothing));
    assert!(show.apply());
    assert_eq!(a.transform, pt(0, 0));
}

#[test]
fn defaults() {
    assert_eq!(WorldChange::default(), WorldChange { score: 0, level: None, dead_effect: false });
    let r = EffectResult::default();
    assert!(!r.scene_changed && r.dead_effects.is_empty());
    assert_eq!(InputState::default(), InputState { xaxis: 0, yaxis: 0, fire: false });
}

#[test]
fn a_player_state_keeps_its_fields() {
    let p = PlayerState { alive: true, score: 12, name: "ace".to_string() };
    assert!(p.alive);
    assert_eq!((p.score, p.name.as_str()), (12, "ace"));
}
